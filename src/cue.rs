//! The lines that open a cue: its id and its time range.
use crate::clock::ClockTime;
use crate::text::{
    all_digits, char_digit_value, char_is_digit, chars_of, decimal, digit_run, digits_value,
    is_digit, lemma_decimal, lemma_digit_char, lemma_digit_run_exact, lemma_three_digits,
    parse_u64, three_digits, u64_of, unsigned_digits,
};
use vstd::prelude::*;

verus! {

/// The separator between the two times of a range line.
pub open spec fn range_sep() -> Seq<char> {
    seq![' ', '-', '-', '>', ' ']
}

/// Position of the first range separator in `s` at or after `i`, or -1.
pub open spec fn find_sep(s: Seq<char>, i: int) -> int
    decreases s.len() - i,
{
    if i < 0 || i + 5 > s.len() {
        -1
    } else if s.subrange(i, i + 5) == range_sep() {
        i
    } else {
        find_sep(s, i + 1)
    }
}

/// The time that `s` spells as `H:M:S,mmm`: one or two digits for the
/// hour, the minute and the second, exactly three for the millisecond,
/// each within its range on a 24-hour clock; `None` for any other text.
pub open spec fn time_of(s: Seq<char>) -> Option<ClockTime> {
    let h_end = digit_run(s, 0) as int;
    let m_start = h_end + 1;
    let m_end = m_start + digit_run(s, m_start);
    let s_start = m_end + 1;
    let s_end = s_start + digit_run(s, s_start);
    let f_start = s_end + 1;
    if 1 <= h_end <= 2 && h_end < s.len() && s[h_end] == ':' && 1 <= m_end - m_start <= 2
        && m_end < s.len() && s[m_end] == ':' && 1 <= s_end - s_start <= 2 && s_end < s.len()
        && s[s_end] == ',' && s.len() == f_start + 3 && digit_run(s, f_start) == 3 {
        let t = ClockTime {
            hour: digits_value(s.subrange(0, h_end)) as u32,
            minute: digits_value(s.subrange(m_start, m_end)) as u32,
            second: digits_value(s.subrange(s_start, s_end)) as u32,
            millisecond: digits_value(s.subrange(f_start, s.len() as int)) as u32,
        };
        if t.wf() {
            Some(t)
        } else {
            None
        }
    } else {
        None
    }
}

/// The two times of a range line `<start> --> <end>`. The line is cut at
/// its first separator; the start is all that comes before it, the end all
/// that comes after it, and each side must be a time.
pub open spec fn range_of(s: Seq<char>) -> Option<(ClockTime, ClockTime)> {
    let p = find_sep(s, 0);
    if p < 0 {
        None
    } else {
        match (time_of(s.subrange(0, p)), time_of(s.subrange(p + 5, s.len() as int))) {
            (Some(a), Some(b)) => Some((a, b)),
            _ => None,
        }
    }
}

/// A time written `H:M:S,mmm`: hour, minute and second without padding,
/// the millisecond as three digits.
pub open spec fn time_text(t: ClockTime) -> Seq<char> {
    decimal(t.hour as nat) + seq![':'] + decimal(t.minute as nat) + seq![':'] + decimal(
        t.second as nat,
    ) + seq![','] + three_digits(t.millisecond as nat)
}

/// A range line: the two times around the separator.
pub open spec fn range_text(start: ClockTime, end: ClockTime) -> Seq<char> {
    time_text(start) + range_sep() + time_text(end)
}

/// No character of `s` from `i` on is a space.
pub open spec fn no_space_from(s: Seq<char>, i: int) -> bool {
    forall|k: int| i <= k < s.len() ==> #[trigger] s[k] != ' '
}

/// The first separator at or after `i` is the one at `p` when no space
/// comes before it.
pub proof fn lemma_find_sep_at(s: Seq<char>, i: int, p: int)
    requires
        0 <= i <= p,
        p + 5 <= s.len(),
        s.subrange(p, p + 5) == range_sep(),
        forall|k: int| i <= k < p ==> #[trigger] s[k] != ' ',
    ensures
        find_sep(s, i) == p,
    decreases p - i,
{
    if i < p {
        assert(s.subrange(i, i + 5)[0] == s[i]);
        lemma_find_sep_at(s, i + 1, p);
    }
}

/// A written time holds no space.
pub proof fn lemma_time_text_no_space(t: ClockTime)
    requires
        t.wf(),
    ensures
        no_space_from(time_text(t), 0),
{
    lemma_decimal(t.hour as nat);
    lemma_decimal(t.minute as nat);
    lemma_decimal(t.second as nat);
    let f = three_digits(t.millisecond as nat);
    lemma_digit_char(t.millisecond as nat / 100);
    lemma_digit_char((t.millisecond as nat / 10) % 10);
    lemma_digit_char(t.millisecond as nat % 10);
    let s = time_text(t);
    assert forall|k: int| 0 <= k < s.len() implies #[trigger] s[k] != ' ' by {
        let h = decimal(t.hour as nat);
        let m = decimal(t.minute as nat);
        let sec = decimal(t.second as nat);
        let a = h.len() as int;
        let b = a + 1 + m.len();
        let c = b + 1 + sec.len();
        if k < a {
            assert(s[k] == h[k] && is_digit(h[k]));
        } else if a < k < b {
            assert(s[k] == m[k - a - 1] && is_digit(m[k - a - 1]));
        } else if b < k < c {
            assert(s[k] == sec[k - b - 1] && is_digit(sec[k - b - 1]));
        } else if c < k {
            assert(s[k] == f[k - c - 1]);
        }
    }
}

/// A written time reads back as the same time.
pub proof fn lemma_time_round_trip(t: ClockTime)
    requires
        t.wf(),
    ensures
        time_of(time_text(t)) == Some(t),
{
    let h = decimal(t.hour as nat);
    let m = decimal(t.minute as nat);
    let sec = decimal(t.second as nat);
    let f = three_digits(t.millisecond as nat);
    lemma_decimal(t.hour as nat);
    lemma_decimal(t.minute as nat);
    lemma_decimal(t.second as nat);
    lemma_three_digits(t.millisecond as nat);
    let s = time_text(t);
    let a = h.len() as int;
    let b = a + 1 + m.len();
    let c = b + 1 + sec.len();
    assert(s =~= h + seq![':'] + m + seq![':'] + sec + seq![','] + f);
    assert(s.len() == c + 4);
    assert(s[a] == ':' && s[b] == ':' && s[c] == ',');
    assert forall|k: int| 0 <= k < a implies is_digit(#[trigger] s[k]) by {
        assert(s[k] == h[k]);
    }
    assert forall|k: int| a + 1 <= k < b implies is_digit(#[trigger] s[k]) by {
        assert(s[k] == m[k - a - 1]);
    }
    assert forall|k: int| b + 1 <= k < c implies is_digit(#[trigger] s[k]) by {
        assert(s[k] == sec[k - b - 1]);
    }
    assert forall|k: int| c + 1 <= k < c + 4 implies is_digit(#[trigger] s[k]) by {
        assert(s[k] == f[k - c - 1]);
    }
    lemma_digit_run_exact(s, 0, a);
    lemma_digit_run_exact(s, a + 1, b);
    lemma_digit_run_exact(s, b + 1, c);
    lemma_digit_run_exact(s, c + 1, c + 4);
    assert(s.subrange(0, a) =~= h);
    assert(s.subrange(a + 1, b) =~= m);
    assert(s.subrange(b + 1, c) =~= sec);
    assert(s.subrange(c + 1, c + 4) =~= f);
}

/// A written range line reads back as the same two times.
pub proof fn lemma_range_round_trip(start: ClockTime, end: ClockTime)
    requires
        start.wf(),
        end.wf(),
    ensures
        range_of(range_text(start, end)) == Some((start, end)),
{
    let a = time_text(start);
    let b = time_text(end);
    let s = range_text(start, end);
    let p = a.len() as int;
    lemma_time_text_no_space(start);
    lemma_time_text_no_space(end);
    assert(s.subrange(p, p + 5) =~= range_sep());
    assert forall|k: int| 0 <= k < p implies #[trigger] s[k] != ' ' by {
        assert(s[k] == a[k]);
    }
    lemma_find_sep_at(s, 0, p);
    assert(s.subrange(p + 5, s.len() as int) =~= b);
    assert(s.subrange(0, p) =~= a);
    lemma_time_round_trip(start);
    lemma_time_round_trip(end);
}

/// An id written in decimal reads back as the same id.
pub proof fn lemma_id_round_trip(id: u64)
    ensures
        u64_of(decimal(id as nat)) == Some(id),
{
    lemma_decimal(id as nat);
    let d = decimal(id as nat);
    assert(is_digit(d[0]));
    assert(unsigned_digits(d) == d);
}

/// The digits of a run lie within `s`, and are digits.
pub proof fn lemma_digit_run_digits(s: Seq<char>, i: int)
    requires
        0 <= i <= s.len(),
    ensures
        i + digit_run(s, i) <= s.len(),
        all_digits(s.subrange(i, i + digit_run(s, i))),
    decreases s.len() - i,
{
    if i < s.len() && is_digit(s[i]) {
        lemma_digit_run_digits(s, i + 1);
        let a = s.subrange(i + 1, i + 1 + digit_run(s, i + 1));
        let b = s.subrange(i, i + digit_run(s, i));
        assert forall|j: int| 0 <= j < b.len() implies is_digit(#[trigger] b[j]) by {
            if j > 0 {
                assert(b[j] == a[j - 1]);
            }
        }
    }
}

/// The length of the run of digits in `s` that starts at `i`.
fn digit_run_len(s: &Vec<char>, i: usize) -> (n: usize)
    requires
        i <= s.len(),
    ensures
        n == digit_run(s@, i as int),
        i + n <= s.len(),
{
    let mut j: usize = i;
    while j < s.len() && char_is_digit(s[j])
        invariant
            i <= j <= s.len(),
            digit_run(s@, i as int) == (j - i) + digit_run(s@, j as int),
        decreases s.len() - j,
    {
        j += 1;
    }
    j - i
}

/// The value of at most three digits `s[lo..hi]`.
fn small_value(s: &Vec<char>, lo: usize, hi: usize) -> (r: u32)
    requires
        lo <= hi <= s.len(),
        hi - lo <= 3,
        all_digits(s@.subrange(lo as int, hi as int)),
    ensures
        r == digits_value(s@.subrange(lo as int, hi as int)),
        r < 1000,
{
    let mut v: u32 = 0;
    let mut k: usize = lo;
    while k < hi
        invariant
            lo <= k <= hi <= s.len(),
            hi - lo <= 3,
            all_digits(s@.subrange(lo as int, hi as int)),
            v == digits_value(s@.subrange(lo as int, k as int)),
            k - lo == 0 ==> v == 0,
            k - lo == 1 ==> v < 10,
            k - lo == 2 ==> v < 100,
            k - lo == 3 ==> v < 1000,
        decreases hi - k,
    {
        assert(s@.subrange(lo as int, k + 1).drop_last() =~= s@.subrange(lo as int, k as int));
        assert(is_digit(s@.subrange(lo as int, hi as int)[k - lo]));
        v = v * 10 + char_digit_value(s[k]);
        k += 1;
    }
    v
}

/// Copies `s[lo..hi]`.
pub fn sub_chars(s: &Vec<char>, lo: usize, hi: usize) -> (r: Vec<char>)
    requires
        lo <= hi <= s.len(),
    ensures
        r@ == s@.subrange(lo as int, hi as int),
{
    let mut r: Vec<char> = Vec::new();
    let mut k: usize = lo;
    while k < hi
        invariant
            lo <= k <= hi <= s.len(),
            r@ == s@.subrange(lo as int, k as int),
        decreases hi - k,
    {
        r.push(s[k]);
        k += 1;
    }
    r
}

/// Reads a time of day written `H:M:S,mmm`.
pub fn parse_time_chars(s: &Vec<char>) -> (r: Option<ClockTime>)
    ensures
        r == time_of(s@),
{
    let h_end = digit_run_len(s, 0);
    if !(1 <= h_end && h_end <= 2 && h_end < s.len() && s[h_end] == ':') {
        return None;
    }
    let m_start = h_end + 1;
    let m_end = m_start + digit_run_len(s, m_start);
    if !(m_end - m_start >= 1 && m_end - m_start <= 2 && m_end < s.len() && s[m_end] == ':') {
        return None;
    }
    let s_start = m_end + 1;
    let s_end = s_start + digit_run_len(s, s_start);
    if !(s_end - s_start >= 1 && s_end - s_start <= 2 && s_end < s.len() && s[s_end] == ',') {
        return None;
    }
    let f_start = s_end + 1;
    if !(s.len() == f_start + 3 && digit_run_len(s, f_start) == 3) {
        return None;
    }
    proof {
        lemma_digit_run_digits(s@, 0);
        lemma_digit_run_digits(s@, m_start as int);
        lemma_digit_run_digits(s@, s_start as int);
        lemma_digit_run_digits(s@, f_start as int);
    }
    let hour = small_value(s, 0, h_end);
    let minute = small_value(s, m_start, m_end);
    let second = small_value(s, s_start, s_end);
    let millisecond = small_value(s, f_start, s.len());
    ClockTime::from_hms_milli(hour, minute, second, millisecond)
}

/// Reads a time of day written `H:M:S,mmm`.
pub fn parse_clock_time(text: &str) -> (r: Option<ClockTime>)
    ensures
        r == time_of(text@),
{
    parse_time_chars(&chars_of(text))
}

/// Position of the first range separator in `s` at or after `from`.
fn find_sep_exec(s: &Vec<char>, from: usize) -> (r: Option<usize>)
    requires
        from <= s.len(),
    ensures
        r is None <==> find_sep(s@, from as int) < 0,
        r matches Some(p) ==> p == find_sep(s@, from as int) && p + 5 <= s.len(),
{
    let mut i: usize = from;
    while i < s.len() && s.len() - i >= 5
        invariant
            from <= i <= s.len(),
            find_sep(s@, from as int) == find_sep(s@, i as int),
        decreases s.len() - i,
    {
        if s[i] == ' ' && s[i + 1] == '-' && s[i + 2] == '-' && s[i + 3] == '>' && s[i + 4]
            == ' ' {
            assert(s@.subrange(i as int, i + 5) =~= range_sep());
            return Some(i);
        }
        assert(s@.subrange(i as int, i + 5) != range_sep()) by {
            let w = s@.subrange(i as int, i + 5);
            if w == range_sep() {
                assert(w[0] == s@[i as int] && w[1] == s@[i + 1] && w[2] == s@[i + 2]);
                assert(w[3] == s@[i + 3] && w[4] == s@[i + 4]);
            }
        }
        i += 1;
    }
    None
}

/// Reads an id line: a decimal number, as `u64::from_str` reads it.
pub fn capture_id(line: &str) -> (r: Option<u64>)
    ensures
        r == u64_of(line@),
{
    parse_u64(&chars_of(line))
}

/// Reads a range line `<start> --> <end>` into its two times.
pub fn capture_ranges(line: &str) -> (r: Option<(ClockTime, ClockTime)>)
    ensures
        r == range_of(line@),
        r matches Some((a, b)) ==> a.wf() && b.wf(),
{
    let s = chars_of(line);
    let p = match find_sep_exec(&s, 0) {
        Some(p) => p,
        None => {
            return None;
        },
    };
    let second = sub_chars(&s, p + 5, s.len());
    let first = sub_chars(&s, 0, p);
    match (parse_time_chars(&first), parse_time_chars(&second)) {
        (Some(a), Some(b)) => Some((a, b)),
        _ => None,
    }
}

} // verus!
