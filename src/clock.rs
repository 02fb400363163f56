//! Time of day with millisecond precision, and its wrapping shift.
use chrono::{NaiveTime, Timelike};
use vstd::arithmetic::div_mod::{lemma_fundamental_div_mod_converse, lemma_mod_multiples_vanish};
use vstd::prelude::*;

verus! {

/// Milliseconds in one day.
pub const DAY_MS: u32 = 86_400_000;

/// Seconds in one day.
pub const DAY_SECS: i64 = 86_400;

/// A time of day: hours, minutes, seconds and milliseconds since midnight.
#[derive(Clone, Copy, Debug, PartialEq, Eq, Structural)]
pub struct ClockTime {
    pub hour: u32,
    pub minute: u32,
    pub second: u32,
    pub millisecond: u32,
}

/// The clock time that lies `n` milliseconds after midnight.
pub open spec fn clock_of_ms(n: int) -> ClockTime {
    ClockTime {
        hour: (n / 3_600_000) as u32,
        minute: ((n / 60_000) % 60) as u32,
        second: ((n / 1000) % 60) as u32,
        millisecond: (n % 1000) as u32,
    }
}

/// The clock time `t` moved by `secs` seconds, wrapping through midnight.
pub open spec fn shifted(t: ClockTime, secs: int) -> ClockTime {
    clock_of_ms((t.total_ms() + secs * 1000) % (DAY_MS as int))
}

impl ClockTime {
    /// Every field lies in its range on a 24-hour clock.
    pub open spec fn wf(self) -> bool {
        &&& self.hour < 24
        &&& self.minute < 60
        &&& self.second < 60
        &&& self.millisecond < 1000
    }

    /// Milliseconds since midnight.
    pub open spec fn total_ms(self) -> int {
        self.hour * 3_600_000 + self.minute * 60_000 + self.second * 1000 + self.millisecond
    }

    /// Midnight.
    pub fn midnight() -> (r: ClockTime)
        ensures
            r.wf(),
            r.total_ms() == 0,
    {
        ClockTime { hour: 0, minute: 0, second: 0, millisecond: 0 }
    }

    /// The time with the given fields, or `None` when one is out of range.
    pub fn from_hms_milli(hour: u32, minute: u32, second: u32, millisecond: u32) -> (r: Option<
        ClockTime,
    >)
        ensures
            r is Some <==> (hour < 24 && minute < 60 && second < 60 && millisecond < 1000),
            r matches Some(t) ==> t == (ClockTime { hour, minute, second, millisecond }),
    {
        if hour < 24 && minute < 60 && second < 60 && millisecond < 1000 {
            Some(ClockTime { hour, minute, second, millisecond })
        } else {
            None
        }
    }

    /// This time moved by `secs` seconds, forward or backward, wrapping
    /// modulo a day.
    pub fn shift(&self, secs: i64) -> (r: ClockTime)
        requires
            self.wf(),
        ensures
            r.wf(),
            r == shifted(*self, secs as int),
            r.total_ms() == (self.total_ms() + secs * 1000) % (DAY_MS as int),
    {
        let within_day: i64 = secs % DAY_SECS;
        proof {
            lemma_shift_mod_day(*self, secs as int, within_day as int);
        }
        let (hour, minute, second, nanos) = add_seconds_wrapping(*self, within_day);
        let r = ClockTime { hour, minute, second, millisecond: nanos / 1_000_000 };
        proof {
            lemma_clock_of_ms_wf((self.total_ms() + secs * 1000) % (DAY_MS as int));
        }
        r
    }
}

/// Relies on chrono's `NaiveTime + time::Duration` (`overflowing_add_signed`):
/// on a time without a leap second it adds the seconds and wraps modulo a day.
/// `NaiveTime::from_hms_milli` builds the time (it panics only on fields out of
/// range) and `Duration::seconds` the offset (it panics only beyond
/// `i64::MAX` milliseconds); the fields are read back through `Timelike`.
#[verifier::external_body]
fn add_seconds_wrapping(t: ClockTime, secs: i64) -> (r: (u32, u32, u32, u32))
    requires
        t.wf(),
        -DAY_SECS < secs < DAY_SECS,
    ensures
        r.0 == shifted(t, secs as int).hour,
        r.1 == shifted(t, secs as int).minute,
        r.2 == shifted(t, secs as int).second,
        r.3 == shifted(t, secs as int).millisecond * 1_000_000,
{
    let n = NaiveTime::from_hms_milli(t.hour, t.minute, t.second, t.millisecond)
        + time::Duration::seconds(secs);
    (n.hour(), n.minute(), n.second(), n.nanosecond())
}

/// A count of milliseconds within a day gives a well-formed time that
/// counts the same milliseconds.
pub proof fn lemma_clock_of_ms_wf(n: int)
    requires
        0 <= n < DAY_MS,
    ensures
        clock_of_ms(n).wf(),
        clock_of_ms(n).total_ms() == n,
{
    assert(clock_of_ms(n).total_ms() == n) by (nonlinear_arith)
        requires
            0 <= n < 86_400_000,
            clock_of_ms(n) == (ClockTime {
                hour: (n / 3_600_000) as u32,
                minute: ((n / 60_000) % 60) as u32,
                second: ((n / 1000) % 60) as u32,
                millisecond: (n % 1000) as u32,
            }),
    {
    }
}

/// A well-formed time is the time of its own count of milliseconds.
pub proof fn lemma_clock_of_total_ms(t: ClockTime)
    requires
        t.wf(),
    ensures
        clock_of_ms(t.total_ms()) == t,
{
    let n = t.total_ms();
    let (h, m, s, ms) = (t.hour as int, t.minute as int, t.second as int, t.millisecond as int);
    lemma_fundamental_div_mod_converse(n, 3_600_000, h, m * 60_000 + s * 1000 + ms);
    lemma_fundamental_div_mod_converse(n, 60_000, h * 60 + m, s * 1000 + ms);
    lemma_fundamental_div_mod_converse(h * 60 + m, 60, h, m);
    lemma_fundamental_div_mod_converse(n, 1000, h * 3600 + m * 60 + s, ms);
    lemma_fundamental_div_mod_converse(h * 3600 + m * 60 + s, 60, h * 60 + m, s);
}

/// Shifting by some seconds and then by as many the other way gives the
/// time back.
pub proof fn lemma_shift_inverse(t: ClockTime, secs: int)
    requires
        t.wf(),
    ensures
        shifted(shifted(t, secs), -secs) == t,
{
    let d = DAY_MS as int;
    let total = t.total_ms();
    let n = (total + secs * 1000) % d;
    let q = (total + secs * 1000) / d;
    lemma_fundamental_div_mod_converse(total + secs * 1000, d, q, n);
    lemma_clock_of_ms_wf(n);
    lemma_mod_multiples_vanish(-q, total, d);
    assert(n + (-secs) * 1000 == d * (-q) + total) by (nonlinear_arith)
        requires
            total + secs * 1000 == q * d + n,
    ;
    lemma_fundamental_div_mod_converse(total, d, 0, total);
    lemma_clock_of_total_ms(t);
}

/// Moving by whole days does not change where the shift lands.
proof fn lemma_shift_mod_day(t: ClockTime, secs: int, within_day: int)
    requires
        (secs - within_day) % (DAY_SECS as int) == 0,
    ensures
        shifted(t, secs) == shifted(t, within_day),
{
    let k = (secs - within_day) / (DAY_SECS as int);
    assert(secs * 1000 == (DAY_MS as int) * k + within_day * 1000) by (nonlinear_arith)
        requires
            (secs - within_day) % 86_400 == 0,
            k == (secs - within_day) / 86_400,
    ;
    lemma_mod_multiples_vanish(k, t.total_ms() + within_day * 1000, DAY_MS as int);
    assert(t.total_ms() + secs * 1000 == (DAY_MS as int) * k + (t.total_ms() + within_day * 1000));
}

} // verus!
