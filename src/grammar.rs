//! The grammar of the dates and durations that a user types:
//! `HH[:MM[:SS]]` and `<date>[+HH[:MM[:SS]]]`.

use vstd::prelude::*;

use chrono::Timelike;

use crate::temporal::{instant_in_range, Duration, Timestamp, MAX_EPOCH_DAY, NANOS_PER_SECOND};

verus! {

/// The field of a duration that a parse error is about.
#[derive(Clone, Copy, Debug, PartialEq, Eq, Structural)]
pub enum Field {
    Hours,
    Minutes,
    Seconds,
}

/// Why a typed date or duration was refused.
#[derive(Clone, Copy, Debug, PartialEq, Eq, Structural)]
pub enum ParseError {
    /// The field is not exactly two decimal digits.
    Format(Field),
    /// The field holds this value, which is past the field's largest.
    Bounds(Field, u8),
    /// The date is not one of the keywords.
    UnknownDate,
    /// The result falls outside the calendar.
    OutOfRange,
}

/// Whether `d` occurs in `s` at position `i`.
pub open spec fn occurs_at(s: Seq<char>, d: Seq<char>, i: int) -> bool {
    0 <= i && i + d.len() <= s.len() && s.subrange(i, i + d.len()) == d
}

/// `s` split around the first occurrence of `d`: what precedes it and, where
/// there is one, what follows it.
#[verifier::opaque]
pub open spec fn split_once_spec(s: Seq<char>, d: Seq<char>) -> (Seq<char>, Option<Seq<char>>) {
    if exists|i: int| #[trigger] occurs_at(s, d, i) {
        let i = choose|i: int|
            #[trigger] occurs_at(s, d, i) && forall|j: int| 0 <= j < i ==> !occurs_at(s, d, j);
        (s.subrange(0, i), Some(s.subrange(i + d.len(), s.len() as int)))
    } else {
        (s, None)
    }
}

fn occurs_here(all: &str, delimiter: &str, i: usize, n: usize, m: usize) -> (r: bool)
    requires
        n == all@.len(),
        m == delimiter@.len(),
        i + m <= n,
    ensures
        r == occurs_at(all@, delimiter@, i as int),
{
    let mut k: usize = 0;
    while k < m
        invariant
            k <= m,
            n == all@.len(),
            m == delimiter@.len(),
            i + m <= n,
            forall|j: int| 0 <= j < k ==> all@[i + j] == delimiter@[j],
        decreases m - k,
    {
        if all.get_char(i + k) != delimiter.get_char(k) {
            assert(all@.subrange(i as int, i + m)[k as int] != delimiter@[k as int]);
            return false;
        }
        k = k + 1;
    }
    assert(all@.subrange(i as int, i + m) =~= delimiter@);
    true
}

/// Splits `all` around the first occurrence of `delimiter`: the part before
/// it and, where it occurs, the part after it.
pub fn try_split_once<'a>(all: &'a str, delimiter: &str) -> (r: (&'a str, Option<&'a str>))
    ensures
        r.0@ == split_once_spec(all@, delimiter@).0,
        r.1 is Some <==> split_once_spec(all@, delimiter@).1 is Some,
        r.1 is Some ==> r.1->0@ == split_once_spec(all@, delimiter@).1->0,
{
    let n = all.unicode_len();
    let m = delimiter.unicode_len();
    if m > n {
        proof {
            reveal(split_once_spec);
            assert forall|j: int| !(#[trigger] occurs_at(all@, delimiter@, j)) by {}
        }
        return (all, None);
    }
    let last: usize = n - m;
    let mut i: usize = 0;
    loop
        invariant
            n == all@.len(),
            m == delimiter@.len(),
            last == n - m,
            i <= last,
            forall|j: int| 0 <= j < i ==> !occurs_at(all@, delimiter@, j),
        ensures
            forall|j: int| 0 <= j <= last ==> !occurs_at(all@, delimiter@, j),
        decreases last - i,
    {
        if occurs_here(all, delimiter, i, n, m) {
            proof {
                reveal(split_once_spec);
                let s = all@;
                let d = delimiter@;
                assert(occurs_at(s, d, i as int));
                let c = choose|c: int|
                    #[trigger] occurs_at(s, d, c) && forall|j: int|
                        0 <= j < c ==> !occurs_at(s, d, j);
                assert(c == i);
            }
            return (all.substring_char(0, i), Some(all.substring_char(i + m, n)));
        }
        if i == last {
            break;
        }
        i = i + 1;
    }
    proof {
        reveal(split_once_spec);
        assert forall|j: int| !(#[trigger] occurs_at(all@, delimiter@, j)) by {
            if j > last {
                assert(j + m > n);
            }
        }
    }
    (all, None)
}

pub open spec fn is_digit(c: char) -> bool {
    '0' <= c && c <= '9'
}

/// The value of a field of exactly two decimal digits, or why there is none.
pub open spec fn field_from(f: Seq<char>, field: Field, max: int) -> Result<int, ParseError> {
    if !(f.len() == 2 && is_digit(f[0]) && is_digit(f[1])) {
        Err(ParseError::Format(field))
    } else {
        let v = (f[0] as int - '0' as int) * 10 + (f[1] as int - '0' as int);
        if v > max {
            Err(ParseError::Bounds(field, v as u8))
        } else {
            Ok(v)
        }
    }
}

/// The number of seconds that `HH[:MM[:SS]]` stands for, or why `s` does not
/// follow that form.
pub open spec fn duration_from(s: Seq<char>) -> Result<int, ParseError> {
    let (hh, mmss) = split_once_spec(s, seq![':']);
    match field_from(hh, Field::Hours, 23) {
        Err(e) => Err(e),
        Ok(h) => match mmss {
            None => Ok(h * 3600),
            Some(mmss) => {
                let (mm, ss) = split_once_spec(mmss, seq![':']);
                match field_from(mm, Field::Minutes, 59) {
                    Err(e) => Err(e),
                    Ok(m) => match ss {
                        None => Ok(h * 3600 + m * 60),
                        Some(ss) => match field_from(ss, Field::Seconds, 59) {
                            Err(e) => Err(e),
                            Ok(sec) => Ok(h * 3600 + m * 60 + sec),
                        },
                    },
                }
            },
        },
    }
}

fn parse_field(f: &str, field: Field, max: u8) -> (r: Result<u8, ParseError>)
    ensures
        match field_from(f@, field, max as int) {
            Ok(v) => r == Ok::<u8, ParseError>(v as u8),
            Err(e) => r == Err::<u8, ParseError>(e),
        },
{
    if f.unicode_len() != 2 {
        return Err(ParseError::Format(field));
    }
    let c0 = f.get_char(0);
    let c1 = f.get_char(1);
    if !('0' <= c0 && c0 <= '9' && '0' <= c1 && c1 <= '9') {
        return Err(ParseError::Format(field));
    }
    let v: u8 = ((c0 as u32 - '0' as u32) * 10 + (c1 as u32 - '0' as u32)) as u8;
    if v > max {
        Err(ParseError::Bounds(field, v))
    } else {
        Ok(v)
    }
}

/// Reads a duration written `HH[:MM[:SS]]`: two digits per field, hours up
/// to 23, minutes and seconds up to 59.
pub fn parse_timedelta(hhmmss: &str) -> (r: Result<Duration, ParseError>)
    ensures
        match duration_from(hhmmss@) {
            Ok(secs) => r == Ok::<Duration, ParseError>(
                Duration { seconds: secs as i64, nanosecond: 0 },
            ),
            Err(e) => r == Err::<Duration, ParseError>(e),
        },
{
    proof {
        reveal_strlit(":");
        assert(":"@ =~= seq![':']);
    }
    let ghost head_split = split_once_spec(hhmmss@, seq![':']);
    let (hh, maybe_mmss) = try_split_once(hhmmss, ":");
    assert(hh@ == head_split.0 && (maybe_mmss is Some <==> head_split.1 is Some));
    let h = match parse_field(hh, Field::Hours, 23) {
        Ok(v) => v as i64,
        Err(e) => return Err(e),
    };
    let mmss = match maybe_mmss {
        Some(x) => x,
        None => return Ok(Duration::from_seconds(h * 3600)),
    };
    assert(mmss@ == head_split.1->0);
    let ghost rest_split = split_once_spec(mmss@, seq![':']);
    let (mm, maybe_ss) = try_split_once(mmss, ":");
    assert(mm@ == rest_split.0 && (maybe_ss is Some <==> rest_split.1 is Some));
    let m = match parse_field(mm, Field::Minutes, 59) {
        Ok(v) => v as i64,
        Err(e) => return Err(e),
    };
    let ss = match maybe_ss {
        Some(x) => x,
        None => return Ok(Duration::from_seconds(h * 3600 + m * 60)),
    };
    assert(ss@ == rest_split.1->0);
    let sec = match parse_field(ss, Field::Seconds, 59) {
        Ok(v) => v as i64,
        Err(e) => return Err(e),
    };
    Ok(Duration::from_seconds(h * 3600 + m * 60 + sec))
}


/// Relies on chrono's `Utc::now`: the system clock read as a UTC instant,
/// which has a nanosecond part below one second and a date within the calendar.
#[verifier::external_body]
fn current_time() -> (r: Timestamp)
    ensures
        r.wf(),
{
    let now = chrono::Utc::now().naive_utc();
    Timestamp {
        epoch_day: now.date().to_epoch_days(),
        second: now.time().num_seconds_from_midnight(),
        nanosecond: now.time().nanosecond(),
    }
}

/// The instant a date keyword names, given the current instant `now`:
/// `now`, `today` (midnight UTC), `tomorrow` or `tmrw` (the next midnight UTC).
pub open spec fn date_from(s: Seq<char>, now: Timestamp) -> Result<Timestamp, ParseError> {
    if s == seq!['n', 'o', 'w'] {
        Ok(now)
    } else if s == seq!['t', 'o', 'd', 'a', 'y'] {
        Ok(Timestamp { epoch_day: now.epoch_day, second: 0, nanosecond: 0 })
    } else if s == seq!['t', 'o', 'm', 'o', 'r', 'r', 'o', 'w'] || s == seq!['t', 'm', 'r', 'w'] {
        if now.epoch_day < MAX_EPOCH_DAY {
            Ok(Timestamp { epoch_day: (now.epoch_day + 1) as i32, second: 0, nanosecond: 0 })
        } else {
            Err(ParseError::OutOfRange)
        }
    } else {
        Err(ParseError::UnknownDate)
    }
}

/// Nanoseconds since the epoch of the instant `<date>[+HH[:MM[:SS]]]`
/// names, given the current instant `now`, or why `s` names none.
pub open spec fn datetime_from(s: Seq<char>, now: Timestamp) -> Result<int, ParseError> {
    let (d, offset) = split_once_spec(s, seq!['+']);
    match date_from(d, now) {
        Err(e) => Err(e),
        Ok(t) => match offset {
            None => Ok(t.nanos()),
            Some(o) => match duration_from(o) {
                Err(e) => Err(e),
                Ok(secs) => if instant_in_range(t.nanos() + secs * NANOS_PER_SECOND) {
                    Ok(t.nanos() + secs * NANOS_PER_SECOND)
                } else {
                    Err(ParseError::OutOfRange)
                },
            },
        },
    }
}

fn same_chars(a: &str, b: &str) -> (r: bool)
    ensures
        r == (a@ == b@),
{
    let n = a.unicode_len();
    if n != b.unicode_len() {
        return false;
    }
    let mut i: usize = 0;
    while i < n
        invariant
            n == a@.len(),
            n == b@.len(),
            i <= n,
            forall|j: int| 0 <= j < i ==> a@[j] == b@[j],
        decreases n - i,
    {
        if a.get_char(i) != b.get_char(i) {
            return false;
        }
        i = i + 1;
    }
    assert(a@ =~= b@);
    true
}

/// Midnight UTC at the start of the current day.
pub fn today() -> (r: Timestamp)
    ensures
        r.wf(),
        r.second == 0,
        r.nanosecond == 0,
{
    current_time().start_of_day()
}

/// The instant a date keyword names, where the current instant is `now`.
pub fn parse_date_at(repr: &str, now: Timestamp) -> (r: Result<Timestamp, ParseError>)
    requires
        now.wf(),
    ensures
        r == date_from(repr@, now),
        r is Ok ==> r->Ok_0.wf(),
{
    proof {
        reveal_strlit("now");
        reveal_strlit("today");
        reveal_strlit("tomorrow");
        reveal_strlit("tmrw");
        assert("now"@ =~= seq!['n', 'o', 'w']);
        assert("today"@ =~= seq!['t', 'o', 'd', 'a', 'y']);
        assert("tomorrow"@ =~= seq!['t', 'o', 'm', 'o', 'r', 'r', 'o', 'w']);
        assert("tmrw"@ =~= seq!['t', 'm', 'r', 'w']);
    }
    if same_chars(repr, "now") {
        Ok(now)
    } else if same_chars(repr, "today") {
        Ok(now.start_of_day())
    } else if same_chars(repr, "tomorrow") || same_chars(repr, "tmrw") {
        if now.epoch_day < MAX_EPOCH_DAY {
            Ok(Timestamp { epoch_day: now.epoch_day + 1, second: 0, nanosecond: 0 })
        } else {
            Err(ParseError::OutOfRange)
        }
    } else {
        Err(ParseError::UnknownDate)
    }
}

/// The instant a date keyword names, read against the system clock.
pub fn parse_date(repr: &str) -> (r: Result<Timestamp, ParseError>)
    ensures
        exists|now: Timestamp| now.wf() && r == date_from(repr@, now),
        r is Ok ==> r->Ok_0.wf(),
{
    let now = current_time();
    parse_date_at(repr, now)
}

/// The instant `<date>[+HH[:MM[:SS]]]` names, where the current instant is
/// `now`: the date, moved on by the duration where there is one.
pub fn parse_datetime_at(repr: &str, now: Timestamp) -> (r: Result<Timestamp, ParseError>)
    requires
        now.wf(),
    ensures
        r is Ok <==> datetime_from(repr@, now) is Ok,
        r is Ok ==> r->Ok_0.wf() && r->Ok_0.nanos() == datetime_from(repr@, now)->Ok_0,
        r is Err ==> r->Err_0 == datetime_from(repr@, now)->Err_0,
{
    proof {
        reveal_strlit("+");
        assert("+"@ =~= seq!['+']);
    }
    let (date_repr, maybe_hhmmss) = try_split_once(repr, "+");
    let date = match parse_date_at(date_repr, now) {
        Ok(t) => t,
        Err(e) => return Err(e),
    };
    let hhmmss = match maybe_hhmmss {
        Some(x) => x,
        None => return Ok(date),
    };
    let delta = match parse_timedelta(hhmmss) {
        Ok(d) => d,
        Err(e) => return Err(e),
    };
    match date.checked_add(delta) {
        Some(t) => Ok(t),
        None => Err(ParseError::OutOfRange),
    }
}

/// The instant `<date>[+HH[:MM[:SS]]]` names, read against the system clock.
pub fn parse_datetime(repr: &str) -> (r: Result<Timestamp, ParseError>)
    ensures
        exists|now: Timestamp|
            now.wf() && (r is Ok <==> datetime_from(repr@, now) is Ok) && (r is Ok ==> r->Ok_0.nanos()
                == datetime_from(repr@, now)->Ok_0) && (r is Err ==> r->Err_0 == datetime_from(
                repr@,
                now,
            )->Err_0),
        r is Ok ==> r->Ok_0.wf(),
{
    let now = current_time();
    parse_datetime_at(repr, now)
}

} // verus!
