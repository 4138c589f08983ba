//! Points in time.

use vstd::prelude::*;

verus! {

/// A point in time, in nanoseconds since the start of 1970 in UTC.
#[derive(Clone, Copy, Debug, PartialEq, Eq, Structural)]
pub struct Timestamp {
    pub nanos: i128,
}

/// The earliest point in time that a calendar date is kept for.
pub const EARLIEST_NANOS: i128 = -8_334_601_228_800_000_000_000;

/// The latest point in time that a calendar date is kept for.
pub const LATEST_NANOS: i128 = 8_210_266_876_799_999_999_999;

/// The first and the last second that a calendar date is kept for.
pub const EARLIEST_SECOND: i64 = -8_334_601_228_800;

pub const LATEST_SECOND: i64 = 8_210_266_876_799;

pub const NANOS_PER_MILLI: i128 = 1_000_000;

pub const NANOS_PER_SECOND: i128 = 1_000_000_000;

pub const NANOS_PER_MINUTE: i128 = 60_000_000_000;

/// An integer cut off at the ends of the range of nanoseconds.
pub open spec fn within_nanos(n: int) -> i128 {
    if n < i128::MIN {
        i128::MIN
    } else if n > i128::MAX {
        i128::MAX
    } else {
        n as i128
    }
}

/// An integer cut off at the ends of the range of 64-bit integers.
pub open spec fn within_i64(n: int) -> i64 {
    if n < i64::MIN {
        i64::MIN
    } else if n > i64::MAX {
        i64::MAX
    } else {
        n as i64
    }
}

/// `n / d` without its fraction, for positive `d`.
pub open spec fn truncated(n: int, d: int) -> int {
    if n < 0 {
        -((-n) / d)
    } else {
        n / d
    }
}

impl Timestamp {
    /// Whether this is a point in time that a calendar date is kept for.
    pub open spec fn calendar(self) -> bool {
        EARLIEST_SECOND <= self.nanos as int / NANOS_PER_SECOND as int <= LATEST_SECOND
    }

    pub fn is_calendar(self) -> (r: bool)
        ensures
            r == self.calendar(),
    {
        EARLIEST_NANOS <= self.nanos && self.nanos <= LATEST_NANOS
    }

    /// The whole seconds since the start of 1970, and the nanoseconds of the started one.
    pub fn split(self) -> (r: (i64, u32))
        requires
            self.calendar(),
        ensures
            r.0 == self.nanos as int / NANOS_PER_SECOND as int,
            r.1 == self.nanos as int % NANOS_PER_SECOND as int,
            r.1 < 1_000_000_000,
    {
        let shifted: i128 = self.nanos - EARLIEST_NANOS;
        let seconds: i128 = shifted / NANOS_PER_SECOND + EARLIEST_SECOND as i128;
        let nanos: i128 = shifted % NANOS_PER_SECOND;
        (seconds as i64, nanos as u32)
    }

    /// The point in time so many whole seconds and nanoseconds after the start of 1970. Where
    /// the nanoseconds are less than a second, it is made of these two numbers again.
    pub fn joined(seconds: i64, nanos: u32) -> (r: Timestamp)
        ensures
            r.nanos == seconds * NANOS_PER_SECOND + nanos,
            nanos < 1_000_000_000 ==> r.nanos as int / NANOS_PER_SECOND as int == seconds
                && r.nanos as int % NANOS_PER_SECOND as int == nanos,
    {
        Timestamp { nanos: seconds as i128 * NANOS_PER_SECOND + nanos as i128 }
    }

    /// Whether this point in time lies before another.
    pub open spec fn before(self, other: Timestamp) -> bool {
        self.nanos < other.nanos
    }

    /// The whole milliseconds from `then` to `self`, cut towards zero.
    pub open spec fn ms_since(self, then: Timestamp) -> i64 {
        within_i64(truncated(self.nanos - then.nanos, NANOS_PER_MILLI as int))
    }

    /// The whole seconds from `then` to `self`, cut towards zero.
    pub open spec fn seconds_since(self, then: Timestamp) -> i64 {
        within_i64(truncated(self.nanos - then.nanos, NANOS_PER_SECOND as int))
    }

    pub open spec fn after_seconds(self, seconds: int) -> Timestamp {
        Timestamp { nanos: within_nanos(self.nanos + seconds * NANOS_PER_SECOND) }
    }

    pub open spec fn before_minutes(self, minutes: int) -> Timestamp {
        Timestamp { nanos: within_nanos(self.nanos - minutes * NANOS_PER_MINUTE) }
    }

    fn shifted(self, by: i128) -> (r: Timestamp)
        ensures
            r.nanos == within_nanos(self.nanos + by),
    {
        match self.nanos.checked_add(by) {
            Some(n) => Timestamp { nanos: n },
            None => Timestamp {
                nanos: if by < 0 {
                    i128::MIN
                } else {
                    i128::MAX
                },
            },
        }
    }

    /// The time `seconds` later, or the last one there is.
    pub fn plus_seconds(self, seconds: i64) -> (r: Timestamp)
        ensures
            r == self.after_seconds(seconds as int),
    {
        self.shifted((seconds as i128) * NANOS_PER_SECOND)
    }

    /// The time `minutes` earlier, or the first one there is.
    pub fn minus_minutes(self, minutes: i64) -> (r: Timestamp)
        ensures
            r == self.before_minutes(minutes as int),
    {
        self.shifted(-((minutes as i128) * NANOS_PER_MINUTE))
    }

    /// The whole units of `unit` nanoseconds from `then` to `self`, cut towards zero.
    fn units_since(self, then: Timestamp, unit: i128) -> (r: i64)
        requires
            1 < unit <= 1_000_000_000,
        ensures
            r == within_i64(truncated(self.nanos - then.nanos, unit as int)),
    {
        match self.nanos.checked_sub(then.nanos) {
            Some(d) => {
                if d == i128::MIN {
                    proof {
                        lemma_far(0x8000_0000_0000_0000_0000_0000_0000_0000int, unit as int);
                    }
                    return i64::MIN;
                }
                let n: u128 = if d < 0 {
                    (-d) as u128
                } else {
                    d as u128
                };
                let q: u128 = n / (unit as u128);
                if d < 0 {
                    if q >= 0x8000_0000_0000_0000 {
                        i64::MIN
                    } else {
                        -(q as i64)
                    }
                } else if q > 0x7fff_ffff_ffff_ffff {
                    i64::MAX
                } else {
                    q as i64
                }
            },
            None => {
                proof {
                    let d = self.nanos - then.nanos;
                    if d < 0 {
                        lemma_far(-d, unit as int);
                    } else {
                        lemma_far(d, unit as int);
                    }
                }
                if self.nanos < then.nanos {
                    i64::MIN
                } else {
                    i64::MAX
                }
            },
        }
    }

    /// The whole milliseconds from `then` to `self`, cut towards zero.
    pub fn millis_since(self, then: Timestamp) -> (r: i64)
        ensures
            r == self.ms_since(then),
    {
        self.units_since(then, NANOS_PER_MILLI)
    }

    /// The whole seconds from `then` to `self`, cut towards zero.
    pub fn secs_since(self, then: Timestamp) -> (r: i64)
        ensures
            r == self.seconds_since(then),
    {
        self.units_since(then, NANOS_PER_SECOND)
    }

    pub fn is_before(self, other: Timestamp) -> (r: bool)
        ensures
            r == self.before(other),
    {
        self.nanos < other.nanos
    }
}

proof fn lemma_far(n: int, unit: int)
    requires
        n >= 0x7fff_ffff_ffff_ffff_ffff_ffff_ffff_ffff,
        1 < unit <= 1_000_000_000,
    ensures
        n / unit > 0x8000_0000_0000_0000,
{
    assert(n / unit > 0x8000_0000_0000_0000) by (nonlinear_arith)
        requires
            n >= 0x7fff_ffff_ffff_ffff_ffff_ffff_ffff_ffff,
            1 < unit <= 1_000_000_000,
    ;
}

/// The time between two points is in whole milliseconds, and in whole seconds, as much as lies
/// between them and less than one more; it is the same both ways but for the sign.
pub proof fn law_time_passes_in_whole_units(a: Timestamp, b: Timestamp)
    requires
        a.nanos <= b.nanos,
        b.nanos - a.nanos <= i64::MAX,
    ensures
        b.ms_since(a) * NANOS_PER_MILLI <= b.nanos - a.nanos < (b.ms_since(a) + 1)
            * NANOS_PER_MILLI,
        b.seconds_since(a) * NANOS_PER_SECOND <= b.nanos - a.nanos < (b.seconds_since(a) + 1)
            * NANOS_PER_SECOND,
        a.ms_since(b) == -b.ms_since(a),
        a.seconds_since(b) == -b.seconds_since(a),
{
}

/// What is put off by seconds comes after so many of them, and minutes before a point in time
/// are sixty seconds each.
pub proof fn law_shifts_can_be_measured(t: Timestamp, n: int)
    requires
        0 <= n <= i32::MAX,
        -0x1000_0000_0000_0000_0000 <= t.nanos <= 0x1000_0000_0000_0000_0000,
    ensures
        t.after_seconds(n).seconds_since(t) == n,
        t.before_minutes(n).after_seconds(60 * n) == t,
{
}

} // verus!
