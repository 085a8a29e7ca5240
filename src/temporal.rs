//! Instants and spans of time, as plain integers.

use vstd::prelude::*;

use chrono::NaiveDate;

verus! {

/// First day count, from 1970-01-01, that the calendar can hold (January 1 of year -262143).
pub const MIN_EPOCH_DAY: i32 = -96465292;

/// Last day count, from 1970-01-01, that the calendar can hold (December 31 of year 262142).
pub const MAX_EPOCH_DAY: i32 = 95026236;

pub const SECONDS_PER_DAY: u32 = 86400;

pub const NANOS_PER_SECOND: u32 = 1000000000;

pub const NANOS_PER_DAY: u64 = 86400000000000;

pub open spec fn day_in_range(day: int) -> bool {
    MIN_EPOCH_DAY <= day <= MAX_EPOCH_DAY
}

/// Whether a count of nanoseconds since the epoch falls on a day the calendar can hold.
pub open spec fn instant_in_range(n: int) -> bool {
    MIN_EPOCH_DAY * NANOS_PER_DAY <= n < (MAX_EPOCH_DAY + 1) * NANOS_PER_DAY
}

/// Relies on chrono's `NaiveDate::from_epoch_days`: it returns a date exactly for
/// the day counts from `NaiveDate::MIN` to `NaiveDate::MAX`.
#[verifier::external_body]
pub(crate) fn calendar_has_day(day: i32) -> (r: bool)
    ensures
        r == day_in_range(day as int),
{
    NaiveDate::from_epoch_days(day).is_some()
}

/// An instant in UTC: a day count from 1970-01-01, the second of that day and
/// the nanosecond of that second.
#[derive(Clone, Copy, Debug, PartialEq, Eq, Structural)]
pub struct Timestamp {
    pub epoch_day: i32,
    pub second: u32,
    pub nanosecond: u32,
}

impl Timestamp {
    pub open spec fn wf(self) -> bool {
        &&& day_in_range(self.epoch_day as int)
        &&& self.second < SECONDS_PER_DAY
        &&& self.nanosecond < NANOS_PER_SECOND
    }

    /// Nanoseconds since 1970-01-01T00:00:00.
    pub open spec fn nanos(self) -> int {
        self.epoch_day * NANOS_PER_DAY + self.second * NANOS_PER_SECOND + self.nanosecond
    }

    /// The instant with the given parts, where each part is in its range.
    pub fn new(epoch_day: i32, second: u32, nanosecond: u32) -> (r: Option<Timestamp>)
        ensures
            r is Some <==> (day_in_range(epoch_day as int) && second < SECONDS_PER_DAY
                && nanosecond < NANOS_PER_SECOND),
            r is Some ==> r->0 == (Timestamp { epoch_day, second, nanosecond }),
    {
        if calendar_has_day(epoch_day) && second < SECONDS_PER_DAY && nanosecond
            < NANOS_PER_SECOND {
            Some(Timestamp { epoch_day, second, nanosecond })
        } else {
            None
        }
    }

    /// Midnight at the start of this instant's day.
    pub fn start_of_day(self) -> (r: Timestamp)
        ensures
            r == (Timestamp { epoch_day: self.epoch_day, second: 0, nanosecond: 0 }),
    {
        Timestamp { epoch_day: self.epoch_day, second: 0, nanosecond: 0 }
    }

    /// The span from `rhs` to this instant: negative where `rhs` is later.
    pub fn signed_duration_since(self, rhs: Timestamp) -> (r: Duration)
        requires
            self.wf(),
            rhs.wf(),
        ensures
            r.wf(),
            r.nanos() == self.nanos() - rhs.nanos(),
    {
        let days: i128 = self.epoch_day as i128 - rhs.epoch_day as i128;
        let day_part: i128 = days * NANOS_PER_DAY as i128;
        proof {
            assert(-200000000 * 86400000000000 <= day_part <= 200000000 * 86400000000000)
                by (nonlinear_arith)
                requires
                    day_part == days * 86400000000000,
                    -200000000 <= days <= 200000000,
            ;
        }
        let sec_part: i128 = (self.second as i128 - rhs.second as i128) * 1000000000i128;
        let n: i128 = day_part + sec_part + (self.nanosecond as i128 - rhs.nanosecond as i128);
        let shift: i128 = 200000000i128 * NANOS_PER_DAY as i128;
        let u: u128 = (n + shift) as u128;
        proof {
            vstd::arithmetic::div_mod::lemma_fundamental_div_mod(u as int, NANOS_PER_SECOND as int);
        }
        Duration {
            seconds: ((u / NANOS_PER_SECOND as u128) as i128 - 200000000i128 * SECONDS_PER_DAY as i128) as i64,
            nanosecond: (u % NANOS_PER_SECOND as u128) as u32,
        }
    }

    /// This instant moved by `d`, where the result falls on a day the calendar holds.
    pub fn checked_add(self, d: Duration) -> (r: Option<Timestamp>)
        requires
            self.wf(),
            d.wf(),
        ensures
            r is Some <==> instant_in_range(self.nanos() + d.nanos()),
            r is Some ==> r->0.wf() && r->0.nanos() == self.nanos() + d.nanos(),
    {
        let day_part: i128 = self.epoch_day as i128 * NANOS_PER_DAY as i128;
        let span_part: i128 = d.seconds as i128 * NANOS_PER_SECOND as i128;
        proof {
            assert(-100000000 * 86400000000000 <= day_part <= 100000000 * 86400000000000)
                by (nonlinear_arith)
                requires
                    day_part == self.epoch_day * 86400000000000,
                    -100000000 <= self.epoch_day <= 100000000,
            ;
            assert(-0x8000000000000000 * 1000000000 <= span_part <= 0x8000000000000000
                * 1000000000) by (nonlinear_arith)
                requires
                    span_part == d.seconds * 1000000000,
                    -0x8000000000000000 <= d.seconds <= 0x8000000000000000,
            ;
        }
        let n: i128 = day_part + self.second as i128 * NANOS_PER_SECOND as i128
            + self.nanosecond as i128 + span_part + d.nanosecond as i128;
        let low: i128 = MIN_EPOCH_DAY as i128 * NANOS_PER_DAY as i128;
        let high: i128 = (MAX_EPOCH_DAY as i128 + 1) * NANOS_PER_DAY as i128;
        if n < low || n >= high {
            return None;
        }
        let u: u128 = (n - low) as u128;
        let day_offset: u128 = u / NANOS_PER_DAY as u128;
        let in_day: u128 = u % NANOS_PER_DAY as u128;
        proof {
            vstd::arithmetic::div_mod::lemma_fundamental_div_mod(u as int, NANOS_PER_DAY as int);
            vstd::arithmetic::div_mod::lemma_fundamental_div_mod(
                in_day as int,
                NANOS_PER_SECOND as int,
            );
        }
        let t = Timestamp {
            epoch_day: (MIN_EPOCH_DAY as i128 + day_offset as i128) as i32,
            second: (in_day / NANOS_PER_SECOND as u128) as u32,
            nanosecond: (in_day % NANOS_PER_SECOND as u128) as u32,
        };
        Some(t)
    }
}

/// Two well-formed instants the same number of nanoseconds from the epoch
/// are the same value: the parts of an instant follow from that number.
pub proof fn lemma_timestamp_eq(a: Timestamp, b: Timestamp)
    requires
        a.wf(),
        b.wf(),
        a.nanos() == b.nanos(),
    ensures
        a == b,
{
    assert(a.epoch_day == b.epoch_day) by (nonlinear_arith)
        requires
            a.epoch_day * 86400000000000 + a.second * 1000000000 + a.nanosecond == b.epoch_day
                * 86400000000000 + b.second * 1000000000 + b.nanosecond,
            0 <= a.second * 1000000000 + a.nanosecond < 86400000000000,
            0 <= b.second * 1000000000 + b.nanosecond < 86400000000000,
    ;
    assert(a.second == b.second) by (nonlinear_arith)
        requires
            a.second * 1000000000 + a.nanosecond == b.second * 1000000000 + b.nanosecond,
            0 <= a.nanosecond < 1000000000,
            0 <= b.nanosecond < 1000000000,
    ;
}

/// A signed span of time: whole seconds and a nanosecond part that is always
/// counted forward, so -1.5 s is -2 s and 500 000 000 ns.
#[derive(Clone, Copy, Debug, PartialEq, Eq, Structural)]
pub struct Duration {
    pub seconds: i64,
    pub nanosecond: u32,
}

impl Duration {
    pub open spec fn wf(self) -> bool {
        self.nanosecond < NANOS_PER_SECOND
    }

    /// Length in nanoseconds.
    pub open spec fn nanos(self) -> int {
        self.seconds * NANOS_PER_SECOND + self.nanosecond
    }

    /// The span of `n` nanoseconds.
    pub fn from_nanos(n: i64) -> (r: Duration)
        ensures
            r.wf(),
            r.nanos() == n,
    {
        let shift: i128 = 9223372037i128 * NANOS_PER_SECOND as i128;
        let u: u128 = (n as i128 + shift) as u128;
        proof {
            vstd::arithmetic::div_mod::lemma_fundamental_div_mod(u as int, NANOS_PER_SECOND as int);
        }
        Duration {
            seconds: ((u / NANOS_PER_SECOND as u128) as i128 - 9223372037i128) as i64,
            nanosecond: (u % NANOS_PER_SECOND as u128) as u32,
        }
    }

    /// The span of `s` whole seconds.
    pub fn from_seconds(s: i64) -> (r: Duration)
        ensures
            r.wf(),
            r.nanos() == s * NANOS_PER_SECOND,
    {
        Duration { seconds: s, nanosecond: 0 }
    }

    /// Length in nanoseconds, where it fits in an `i64`.
    pub fn num_nanoseconds(self) -> (r: Option<i64>)
        ensures
            r == (if i64::MIN <= self.nanos() <= i64::MAX {
                Some(self.nanos() as i64)
            } else {
                None
            }),
    {
        let span_part: i128 = self.seconds as i128 * NANOS_PER_SECOND as i128;
        proof {
            assert(-0x8000000000000000 * 1000000000 <= span_part <= 0x8000000000000000
                * 1000000000) by (nonlinear_arith)
                requires
                    span_part == self.seconds * 1000000000,
                    -0x8000000000000000 <= self.seconds <= 0x8000000000000000,
            ;
        }
        let n: i128 = span_part + self.nanosecond as i128;
        if n < i64::MIN as i128 || n > i64::MAX as i128 {
            None
        } else {
            Some(n as i64)
        }
    }
}

} // verus!
