//! Moving cues in time and writing them back as lines.
use crate::clock::{lemma_clock_of_total_ms, shifted, ClockTime, DAY_MS};
use crate::cue::{lemma_id_round_trip, lemma_range_round_trip, range_text, time_text};
use crate::parser::{
    cue_wf, cues_of, initial_state, lemma_run_texts, lines_of, parse_cues, run, step, Cue,
    ParserState, Subtitle,
};
use vstd::arithmetic::div_mod::lemma_fundamental_div_mod_converse;
use crate::text::{decimal, push_decimal, push_three_digits};
use vstd::prelude::*;

verus! {

/// The cue with both times moved by `secs` seconds; id and text unchanged.
pub open spec fn shifted_cue(c: Cue, secs: int) -> Cue {
    Cue { start: shifted(c.start, secs), end: shifted(c.end, secs), ..c }
}

/// Every cue moved by `secs` seconds.
pub open spec fn shifted_cues(cues: Seq<Cue>, secs: int) -> Seq<Cue> {
    cues.map_values(|c: Cue| shifted_cue(c, secs))
}

/// The lines of one cue: its id, its range, its text lines and an empty line.
pub open spec fn cue_lines(c: Cue) -> Seq<Seq<char>> {
    seq![decimal(c.id as nat), range_text(c.start, c.end)] + c.texts + seq![Seq::<char>::empty()]
}

/// The lines of all cues, one cue after another.
pub open spec fn all_cue_lines(cues: Seq<Cue>) -> Seq<Seq<char>>
    decreases cues.len(),
{
    if cues.len() == 0 {
        Seq::empty()
    } else {
        all_cue_lines(cues.drop_last()) + cue_lines(cues.last())
    }
}

/// A cue that a file can hold: well-formed times and no empty text line.
pub open spec fn cue_writable(c: Cue) -> bool {
    &&& cue_wf(c)
    &&& forall|i: int| 0 <= i < c.texts.len() ==> (#[trigger] c.texts[i]).len() > 0
}

/// Shifting by zero seconds keeps a cue as it is.
pub proof fn lemma_shift_zero(c: Cue)
    requires
        cue_wf(c),
    ensures
        shifted_cue(c, 0) == c,
{
    let d = DAY_MS as int;
    lemma_fundamental_div_mod_converse(c.start.total_ms(), d, 0, c.start.total_ms());
    lemma_fundamental_div_mod_converse(c.end.total_ms(), d, 0, c.end.total_ms());
    lemma_clock_of_total_ms(c.start);
    lemma_clock_of_total_ms(c.end);
}

/// A single well-formed cue, written out, parses back as that cue alone;
/// moved by zero seconds and written again, it gives the same lines.
pub proof fn lemma_parse_render_round_trip(c: Cue)
    requires
        cue_writable(c),
    ensures
        parse_cues(cue_lines(c)) == seq![c],
        all_cue_lines(shifted_cues(parse_cues(cue_lines(c)), 0)) == cue_lines(c),
{
    let id_line = decimal(c.id as nat);
    let range_line = range_text(c.start, c.end);
    let tail = seq![Seq::<char>::empty()];
    let lines = cue_lines(c);
    lemma_id_round_trip(c.id);
    lemma_range_round_trip(c.start, c.end);
    let st0 = initial_state();
    let st1 = step(st0, id_line);
    let st2 = step(st1, range_line);
    assert(lines[0] == id_line);
    assert(lines.drop_first()[0] == range_line);
    assert(lines.drop_first().drop_first() =~= c.texts + tail);
    assert(run(st0, lines) == run(st1, lines.drop_first()));
    assert(run(st1, lines.drop_first()) == run(st2, c.texts + tail));
    lemma_run_texts(st2, c.texts, tail);
    let st3 = ParserState { current: Cue { texts: st2.current.texts + c.texts, ..st2.current }, ..st2 };
    assert(st3.current.texts =~= c.texts);
    assert(st3.current == c);
    assert(tail.drop_first() =~= Seq::<Seq<char>>::empty());
    let st4 = step(st3, tail[0]);
    assert(run(st4, Seq::<Seq<char>>::empty()) == st4);
    assert(run(st3, tail) == st4);
    assert(parse_cues(lines) =~= seq![c]);
    lemma_shift_zero(c);
    let moved = shifted_cues(seq![c], 0);
    assert(moved =~= seq![c]);
    assert(moved.drop_last() =~= Seq::<Cue>::empty());
    assert(all_cue_lines(Seq::<Cue>::empty()) == Seq::<Seq<char>>::empty());
    assert(moved.last() == c);
    assert(all_cue_lines(moved) =~= cue_lines(c));
}

/// Writes a time as `H:M:S,mmm`.
pub fn render_time(t: &ClockTime) -> (r: String)
    requires
        t.wf(),
    ensures
        r@ == time_text(*t),
{
    let mut r = String::new();
    proof {
        reveal_strlit(":");
        reveal_strlit(",");
    }
    push_decimal(&mut r, t.hour as u64);
    r.append(":");
    push_decimal(&mut r, t.minute as u64);
    r.append(":");
    push_decimal(&mut r, t.second as u64);
    r.append(",");
    push_three_digits(&mut r, t.millisecond);
    assert(r@ =~= time_text(*t));
    r
}

/// Writes a range line `<start> --> <end>`.
pub fn render_range(start: &ClockTime, end: &ClockTime) -> (r: String)
    requires
        start.wf(),
        end.wf(),
    ensures
        r@ == range_text(*start, *end),
{
    let mut r = render_time(start);
    proof {
        reveal_strlit(" --> ");
    }
    r.append(" --> ");
    r.append(render_time(end).as_str());
    assert(r@ =~= range_text(*start, *end));
    r
}

/// Copies text lines.
fn copy_lines(v: &Vec<String>) -> (r: Vec<String>)
    ensures
        lines_of(r@) == lines_of(v@),
{
    let mut r: Vec<String> = Vec::new();
    let mut i: usize = 0;
    while i < v.len()
        invariant
            i <= v.len(),
            lines_of(r@) == lines_of(v@.subrange(0, i as int)),
        decreases v.len() - i,
    {
        let ghost before = r@;
        r.push(v[i].clone());
        assert(lines_of(r@) =~= lines_of(before).push(v@[i as int]@));
        assert(lines_of(v@.subrange(0, i + 1)) =~= lines_of(v@.subrange(0, i as int)).push(
            v@[i as int]@,
        ));
        i += 1;
    }
    assert(v@.subrange(0, i as int) =~= v@);
    r
}

/// The cue with both times moved by `secs` seconds, wrapping through
/// midnight; the id and the text lines are copied unchanged.
pub fn shift_subtitle(sub: &Subtitle, secs: i64) -> (r: Subtitle)
    requires
        cue_wf(sub@),
    ensures
        r@ == shifted_cue(sub@, secs as int),
        cue_wf(r@),
{
    Subtitle {
        id: sub.id,
        start: sub.start.shift(secs),
        end: sub.end.shift(secs),
        texts: copy_lines(&sub.texts),
    }
}

/// The lines of one cue: its id, its range, its text lines and an empty line.
pub fn render_subtitle(sub: &Subtitle) -> (r: Vec<String>)
    requires
        cue_wf(sub@),
    ensures
        lines_of(r@) == cue_lines(sub@),
{
    let mut r: Vec<String> = Vec::new();
    let mut id = String::new();
    push_decimal(&mut id, sub.id);
    r.push(id);
    r.push(render_range(&sub.start, &sub.end));
    let ghost head = lines_of(r@);
    assert(head =~= seq![decimal(sub.id as nat), range_text(sub.start, sub.end)]);
    let mut i: usize = 0;
    while i < sub.texts.len()
        invariant
            i <= sub.texts.len(),
            lines_of(r@) == head + lines_of(sub.texts@.subrange(0, i as int)),
        decreases sub.texts.len() - i,
    {
        let ghost before = r@;
        r.push(sub.texts[i].clone());
        assert(lines_of(r@) =~= lines_of(before).push(sub.texts@[i as int]@));
        assert(lines_of(sub.texts@.subrange(0, i + 1)) =~= lines_of(
            sub.texts@.subrange(0, i as int),
        ).push(sub.texts@[i as int]@));
        i += 1;
    }
    assert(sub.texts@.subrange(0, i as int) =~= sub.texts@);
    let ghost before = r@;
    r.push(String::new());
    assert(lines_of(r@) =~= lines_of(before).push(Seq::<char>::empty()));
    assert(lines_of(r@) =~= cue_lines(sub@));
    r
}

/// Moves every cue by `secs` seconds and writes them all, in order.
pub fn shift_and_render(subs: &Vec<Subtitle>, secs: i64) -> (r: Vec<String>)
    requires
        forall|i: int| 0 <= i < subs@.len() ==> cue_wf(#[trigger] subs@[i]@),
    ensures
        lines_of(r@) == all_cue_lines(shifted_cues(cues_of(subs@), secs as int)),
{
    let ghost cues = shifted_cues(cues_of(subs@), secs as int);
    let mut r: Vec<String> = Vec::new();
    let mut i: usize = 0;
    while i < subs.len()
        invariant
            i <= subs.len(),
            forall|k: int| 0 <= k < subs@.len() ==> cue_wf(#[trigger] subs@[k]@),
            cues == shifted_cues(cues_of(subs@), secs as int),
            lines_of(r@) == all_cue_lines(cues.subrange(0, i as int)),
        decreases subs.len() - i,
    {
        let moved = shift_subtitle(&subs[i], secs);
        let lines = render_subtitle(&moved);
        let ghost before = r@;
        let mut k: usize = 0;
        while k < lines.len()
            invariant
                k <= lines.len(),
                lines_of(r@) == lines_of(before) + lines_of(lines@.subrange(0, k as int)),
            decreases lines.len() - k,
        {
            let ghost mid = r@;
            r.push(lines[k].clone());
            assert(lines_of(r@) =~= lines_of(mid).push(lines@[k as int]@));
            assert(lines_of(lines@.subrange(0, k + 1)) =~= lines_of(
                lines@.subrange(0, k as int),
            ).push(lines@[k as int]@));
            k += 1;
        }
        assert(lines@.subrange(0, k as int) =~= lines@);
        let ghost upto = cues.subrange(0, i + 1);
        assert(upto.drop_last() =~= cues.subrange(0, i as int));
        assert(upto.last() == moved@);
        i += 1;
    }
    assert(cues.subrange(0, i as int) =~= cues);
    r
}

} // verus!
