//! The line-by-line parser that gathers the cues of a subtitle file.
//!
//! It is a three-state machine without lookahead: it waits for an id line,
//! then for a range line, then takes text lines until an empty one. Lines
//! that do not fit the state are skipped and the state is kept.
use crate::clock::ClockTime;
use crate::cue::{capture_id, capture_ranges, range_of};
use crate::text::u64_of;
use vstd::prelude::*;

verus! {

/// One cue of a subtitle file: its id, its time range and its text lines.
pub struct Subtitle {
    pub id: u64,
    pub start: ClockTime,
    pub end: ClockTime,
    pub texts: Vec<String>,
}

/// What a `Subtitle` holds, with its text lines as character sequences.
pub struct Cue {
    pub id: u64,
    pub start: ClockTime,
    pub end: ClockTime,
    pub texts: Seq<Seq<char>>,
}

impl View for Subtitle {
    type V = Cue;

    open spec fn view(&self) -> Cue {
        Cue { id: self.id, start: self.start, end: self.end, texts: lines_of(self.texts@) }
    }
}

/// The character sequences of some strings.
pub open spec fn lines_of(v: Seq<String>) -> Seq<Seq<char>> {
    v.map_values(|s: String| s@)
}

/// The cues that some subtitles hold.
pub open spec fn cues_of(v: Seq<Subtitle>) -> Seq<Cue> {
    v.map_values(|s: Subtitle| s@)
}

/// Both times of the cue are well formed.
pub open spec fn cue_wf(c: Cue) -> bool {
    c.start.wf() && c.end.wf()
}

/// The line the parser waits for next.
#[derive(Clone, Copy, Debug, PartialEq, Eq, Structural)]
pub enum CaptureMode {
    /// A cue's id.
    Id,
    /// A cue's time range.
    Range,
    /// A text line of the cue, or the empty line that ends it.
    Texts,
}

/// The parser's state: what it waits for, the cue it is building and the
/// cues it has completed.
pub struct ParserState {
    pub mode: CaptureMode,
    pub current: Cue,
    pub done: Seq<Cue>,
}

/// A cue with id 0, both times at midnight and no text.
pub open spec fn blank_cue() -> Cue {
    let midnight = ClockTime { hour: 0, minute: 0, second: 0, millisecond: 0 };
    Cue { id: 0, start: midnight, end: midnight, texts: Seq::empty() }
}

/// The state before the first line.
pub open spec fn initial_state() -> ParserState {
    ParserState { mode: CaptureMode::Id, current: blank_cue(), done: Seq::empty() }
}

/// The state after one more line.
pub open spec fn step(st: ParserState, line: Seq<char>) -> ParserState {
    match st.mode {
        CaptureMode::Id => match u64_of(line) {
            Some(id) => ParserState {
                mode: CaptureMode::Range,
                current: Cue { id, ..st.current },
                ..st
            },
            None => st,
        },
        CaptureMode::Range => match range_of(line) {
            Some((start, end)) => ParserState {
                mode: CaptureMode::Texts,
                current: Cue { start, end, ..st.current },
                ..st
            },
            None => st,
        },
        CaptureMode::Texts => if line.len() > 0 {
            ParserState {
                current: Cue { texts: st.current.texts.push(line), ..st.current },
                ..st
            }
        } else {
            ParserState { mode: CaptureMode::Id, current: blank_cue(), done: st.done.push(st.current) }
        },
    }
}

/// The state after all of `lines`, one after another.
pub open spec fn run(st: ParserState, lines: Seq<Seq<char>>) -> ParserState
    decreases lines.len(),
{
    if lines.len() == 0 {
        st
    } else {
        run(step(st, lines[0]), lines.drop_first())
    }
}

/// The cues at the end of the input: a cue whose text is being read is
/// complete; one that still waits for its id or range is dropped.
pub open spec fn finished(st: ParserState) -> Seq<Cue> {
    if st.mode == CaptureMode::Texts {
        st.done.push(st.current)
    } else {
        st.done
    }
}

/// The cues of a file made of `lines`.
pub open spec fn parse_cues(lines: Seq<Seq<char>>) -> Seq<Cue> {
    finished(run(initial_state(), lines))
}

/// Every cue of the state has well-formed times.
pub open spec fn state_wf(st: ParserState) -> bool {
    &&& cue_wf(st.current)
    &&& forall|i: int| 0 <= i < st.done.len() ==> cue_wf(#[trigger] st.done[i])
}

/// One line keeps every time of the state well formed.
pub proof fn lemma_step_wf(st: ParserState, line: Seq<char>)
    requires
        state_wf(st),
    ensures
        state_wf(step(st, line)),
{
    let r = step(st, line);
    if st.mode == CaptureMode::Texts && line.len() == 0 {
        assert forall|i: int| 0 <= i < r.done.len() implies cue_wf(#[trigger] r.done[i]) by {
            if i < st.done.len() {
                assert(r.done[i] == st.done[i]);
            }
        }
    }
}

/// Any run of lines keeps every time of the state well formed.
pub proof fn lemma_run_wf(st: ParserState, lines: Seq<Seq<char>>)
    requires
        state_wf(st),
    ensures
        state_wf(run(st, lines)),
    decreases lines.len(),
{
    if lines.len() > 0 {
        lemma_step_wf(st, lines[0]);
        lemma_run_wf(step(st, lines[0]), lines.drop_first());
    }
}

/// Non-empty lines read while taking text are the cue's next text lines.
pub proof fn lemma_run_texts(st: ParserState, texts: Seq<Seq<char>>, rest: Seq<Seq<char>>)
    requires
        st.mode == CaptureMode::Texts,
        forall|i: int| 0 <= i < texts.len() ==> (#[trigger] texts[i]).len() > 0,
    ensures
        run(st, texts + rest) == run(
            ParserState { current: Cue { texts: st.current.texts + texts, ..st.current }, ..st },
            rest,
        ),
    decreases texts.len(),
{
    if texts.len() > 0 {
        assert((texts + rest)[0] == texts[0]);
        assert((texts + rest).drop_first() =~= texts.drop_first() + rest);
        assert forall|i: int| 0 <= i < texts.drop_first().len() implies (
        #[trigger] texts.drop_first()[i]).len() > 0 by {
            assert(texts.drop_first()[i] == texts[i + 1]);
        }
        let next = step(st, texts[0]);
        lemma_run_texts(next, texts.drop_first(), rest);
        assert(next.current.texts + texts.drop_first() =~= st.current.texts + texts);
    } else {
        assert(texts + rest =~= rest);
        assert(st.current.texts + texts =~= st.current.texts);
    }
}

/// Lines that are no id, read while waiting for an id, change nothing.
proof fn lemma_run_skips_non_ids(st: ParserState, junk: Seq<Seq<char>>, rest: Seq<Seq<char>>)
    requires
        st.mode == CaptureMode::Id,
        forall|i: int| 0 <= i < junk.len() ==> (#[trigger] u64_of(junk[i])) is None,
    ensures
        run(st, junk + rest) == run(st, rest),
    decreases junk.len(),
{
    if junk.len() > 0 {
        assert((junk + rest)[0] == junk[0]);
        assert((junk + rest).drop_first() =~= junk.drop_first() + rest);
        assert forall|i: int| 0 <= i < junk.drop_first().len() implies (#[trigger] u64_of(
            junk.drop_first()[i],
        )) is None by {
            assert(junk.drop_first()[i] == junk[i + 1]);
        }
        lemma_run_skips_non_ids(st, junk.drop_first(), rest);
    } else {
        assert(junk + rest =~= rest);
    }
}

/// Blank or other non-numeric lines before the first id line are ignored:
/// they add no cue and change none.
pub proof fn lemma_leading_junk_ignored(junk: Seq<Seq<char>>, rest: Seq<Seq<char>>)
    requires
        forall|i: int| 0 <= i < junk.len() ==> (#[trigger] u64_of(junk[i])) is None,
    ensures
        parse_cues(junk + rest) == parse_cues(rest),
{
    lemma_run_skips_non_ids(initial_state(), junk, rest);
}

/// No line that is an id comes before a line that is a range.
pub open spec fn no_id_before_range(lines: Seq<Seq<char>>) -> bool {
    forall|i: int, j: int|
        0 <= i < j < lines.len() ==> !((#[trigger] u64_of(lines[i])) is Some && (
        #[trigger] range_of(lines[j])) is Some)
}

/// Without an id line that a range line follows, the parser never reads
/// text, and completes no cue.
proof fn lemma_run_without_heads(st: ParserState, lines: Seq<Seq<char>>)
    requires
        st.mode != CaptureMode::Texts,
        st.done.len() == 0,
        no_id_before_range(lines),
        st.mode == CaptureMode::Range ==> forall|j: int|
            0 <= j < lines.len() ==> (#[trigger] range_of(lines[j])) is None,
    ensures
        run(st, lines).mode != CaptureMode::Texts,
        run(st, lines).done.len() == 0,
    decreases lines.len(),
{
    if lines.len() > 0 {
        let rest = lines.drop_first();
        let next = step(st, lines[0]);
        assert forall|i: int, j: int| 0 <= i < j < rest.len() implies !((#[trigger] u64_of(
            rest[i],
        )) is Some && (#[trigger] range_of(rest[j])) is Some) by {
            assert(rest[i] == lines[i + 1] && rest[j] == lines[j + 1]);
            assert(!(u64_of(lines[i + 1]) is Some && range_of(lines[j + 1]) is Some));
        }
        if next.mode == CaptureMode::Range {
            assert forall|j: int| 0 <= j < rest.len() implies (#[trigger] range_of(
                rest[j],
            )) is None by {
                assert(rest[j] == lines[j + 1]);
                if st.mode == CaptureMode::Id {
                    assert(u64_of(lines[0]) is Some);
                    assert(!(u64_of(lines[0]) is Some && range_of(lines[j + 1]) is Some));
                } else {
                    assert(range_of(lines[j + 1]) is None);
                }
            }
        }
        if st.mode == CaptureMode::Range {
            assert(range_of(lines[0]) is None);
        }
        lemma_run_without_heads(next, rest);
    }
}

/// A file with no complete cue head, that is with no id line that a range
/// line follows, gives no cue at all.
pub proof fn lemma_no_blocks_no_cues(lines: Seq<Seq<char>>)
    requires
        no_id_before_range(lines),
    ensures
        parse_cues(lines) == Seq::<Cue>::empty(),
{
    lemma_run_without_heads(initial_state(), lines);
}

impl Subtitle {
    /// A cue with id 0, both times at midnight and no text.
    pub fn blank() -> (r: Subtitle)
        ensures
            r@ == blank_cue(),
    {
        let r = Subtitle {
            id: 0,
            start: ClockTime::midnight(),
            end: ClockTime::midnight(),
            texts: Vec::new(),
        };
        assert(r@.texts =~= Seq::<Seq<char>>::empty());
        r
    }
}

/// The parser: fed one line at a time, it builds the cues of a file.
pub struct Parser {
    mode: CaptureMode,
    current: Subtitle,
    done: Vec<Subtitle>,
}

impl View for Parser {
    type V = ParserState;

    closed spec fn view(&self) -> ParserState {
        ParserState { mode: self.mode, current: self.current@, done: cues_of(self.done@) }
    }
}

impl Parser {
    /// A parser that waits for the first cue's id.
    pub fn new() -> (r: Parser)
        ensures
            r@ == initial_state(),
    {
        let r = Parser { mode: CaptureMode::Id, current: Subtitle::blank(), done: Vec::new() };
        assert(r@.done =~= Seq::<Cue>::empty());
        r
    }

    /// The line the parser waits for next.
    pub fn mode(&self) -> (r: CaptureMode)
        ensures
            r == self@.mode,
    {
        self.mode
    }

    /// How many cues are complete so far.
    pub fn completed(&self) -> (r: usize)
        ensures
            r == self@.done.len(),
    {
        self.done.len()
    }

    /// Takes one line of the file, without its line terminator.
    pub fn feed(&mut self, line: String)
        ensures
            final(self)@ == step(old(self)@, line@),
    {
        match self.mode {
            CaptureMode::Id => {
                if let Some(id) = capture_id(line.as_str()) {
                    self.current.id = id;
                    self.mode = CaptureMode::Range;
                }
            },
            CaptureMode::Range => {
                if let Some((start, end)) = capture_ranges(line.as_str()) {
                    self.current.start = start;
                    self.current.end = end;
                    self.mode = CaptureMode::Texts;
                }
            },
            CaptureMode::Texts => {
                if !line.as_str().is_empty() {
                    let ghost before = self.current.texts@;
                    self.current.texts.push(line);
                    assert(lines_of(self.current.texts@) =~= lines_of(before).push(line@));
                } else {
                    let ghost before = self.done@;
                    let mut cue = Subtitle::blank();
                    std::mem::swap(&mut cue, &mut self.current);
                    self.done.push(cue);
                    self.mode = CaptureMode::Id;
                    assert(cues_of(self.done@) =~= cues_of(before).push(cue@));
                }
            },
        }
    }

    /// The cues of the file, once every line has been fed.
    pub fn finish(self) -> (r: Vec<Subtitle>)
        ensures
            cues_of(r@) == finished(self@),
    {
        let mut done = self.done;
        if self.mode == CaptureMode::Texts {
            let ghost before = done@;
            done.push(self.current);
            assert(cues_of(done@) =~= cues_of(before).push(self.current@));
        }
        done
    }
}

/// The cues of a file, given as its lines without line terminators.
pub fn parse_subtitles(lines: &Vec<String>) -> (r: Vec<Subtitle>)
    ensures
        cues_of(r@) == parse_cues(lines_of(lines@)),
        forall|i: int| 0 <= i < r@.len() ==> cue_wf(#[trigger] r@[i]@),
{
    let ghost all = lines_of(lines@);
    let mut parser = Parser::new();
    let mut i: usize = 0;
    assert(all.subrange(0, all.len() as int) =~= all);
    while i < lines.len()
        invariant
            i <= lines.len(),
            all == lines_of(lines@),
            run(parser@, all.subrange(i as int, all.len() as int)) == run(initial_state(), all),
        decreases lines.len() - i,
    {
        let line = lines[i].clone();
        let ghost rest = all.subrange(i as int, all.len() as int);
        assert(rest.drop_first() =~= all.subrange(i + 1, all.len() as int));
        assert(rest[0] == line@);
        parser.feed(line);
        i += 1;
    }
    assert(all.subrange(i as int, all.len() as int) =~= Seq::<Seq<char>>::empty());
    proof {
        lemma_run_wf(initial_state(), all);
    }
    let ghost st = parser@;
    let r = parser.finish();
    assert forall|k: int| 0 <= k < r@.len() implies cue_wf(#[trigger] r@[k]@) by {
        assert(cues_of(r@)[k] == r@[k]@);
        assert(cues_of(r@).len() == r@.len());
        if k < st.done.len() {
            assert(finished(st)[k] == st.done[k]);
        } else {
            assert(finished(st)[k] == st.current);
        }
    }
    r
}

} // verus!
