use hrtracker::cli::{name, Action, ArgError, ArgList, FormattedInterval};
use hrtracker::grammar::{
    parse_date, parse_date_at, parse_datetime, parse_datetime_at, parse_timedelta, today,
    try_split_once, Field, ParseError,
};
use hrtracker::temporal::{Duration, Timestamp, MAX_EPOCH_DAY};

fn ts(day: i32, second: u32, nanosecond: u32) -> Timestamp {
    Timestamp::new(day, second, nanosecond).unwrap()
}

fn secs(s: i64) -> Duration {
    Duration::from_seconds(s)
}

#[test]
fn split_once_cases() {
    assert_eq!(try_split_once("a+b+c", "+"), ("a", Some("b+c")));
    assert_eq!(try_split_once("abc", "+"), ("abc", None));
    assert_eq!(try_split_once("ab::cd", "::"), ("ab", Some("cd")));
    assert_eq!(try_split_once("x:", ":"), ("x", Some("")));
    assert_eq!(try_split_once("", ":"), ("", None));
    assert_eq!(try_split_once("été:1", ":"), ("été", Some("1")));
}

#[test]
fn duration_grammar() {
    assert_eq!(parse_timedelta("07"), Ok(secs(7 * 3600)));
    assert_eq!(parse_timedelta("07:30"), Ok(secs(7 * 3600 + 30 * 60)));
    assert_eq!(parse_timedelta("07:30:15"), Ok(secs(7 * 3600 + 30 * 60 + 15)));
    assert_eq!(parse_timedelta("24"), Err(ParseError::Bounds(Field::Hours, 24)));
    assert_eq!(parse_timedelta("7"), Err(ParseError::Format(Field::Hours)));
    assert_eq!(parse_timedelta("07:60"), Err(ParseError::Bounds(Field::Minutes, 60)));
}

#[test]
fn duration_grammar_edges() {
    assert_eq!(parse_timedelta("00"), Ok(secs(0)));
    assert_eq!(parse_timedelta("23:59:59"), Ok(secs(86399)));
    assert_eq!(parse_timedelta("00:00:60"), Err(ParseError::Bounds(Field::Seconds, 60)));
    assert_eq!(parse_timedelta("+1"), Err(ParseError::Format(Field::Hours)));
    assert_eq!(parse_timedelta("07:"), Err(ParseError::Format(Field::Minutes)));
    assert_eq!(parse_timedelta("07:30:"), Err(ParseError::Format(Field::Seconds)));
    assert_eq!(parse_timedelta("07:30:15:00"), Err(ParseError::Format(Field::Seconds)));
    assert_eq!(parse_timedelta("007"), Err(ParseError::Format(Field::Hours)));
    assert_eq!(parse_timedelta(""), Err(ParseError::Format(Field::Hours)));
    assert_eq!(parse_timedelta("99:99"), Err(ParseError::Bounds(Field::Hours, 99)));
}

#[test]
fn date_grammar() {
    let now = ts(20000, 12345, 678);
    assert_eq!(parse_date_at("now", now), Ok(now));
    assert_eq!(parse_date_at("today", now), Ok(ts(20000, 0, 0)));
    assert_eq!(parse_date_at("tomorrow", now), Ok(ts(20001, 0, 0)));
    assert_eq!(parse_date_at("tmrw", now), Ok(ts(20001, 0, 0)));
    assert_eq!(parse_date_at("badkeyword", now), Err(ParseError::UnknownDate));
    assert_eq!(parse_date_at("Today", now), Err(ParseError::UnknownDate));
    let last = ts(MAX_EPOCH_DAY, 5, 5);
    assert_eq!(parse_date_at("tomorrow", last), Err(ParseError::OutOfRange));
}

#[test]
fn datetime_grammar() {
    let now = ts(20000, 12345, 678);
    assert_eq!(parse_datetime_at("tomorrow+01:00:00", now), Ok(ts(20001, 3600, 0)));
    assert_eq!(parse_datetime_at("today+07:30", now), Ok(ts(20000, 7 * 3600 + 1800, 0)));
    assert_eq!(parse_datetime_at("now", now), Ok(now));
    assert_eq!(parse_datetime_at("now+23", now), Ok(ts(20001, 12345 + 23 * 3600 - 86400, 678)));
    assert_eq!(parse_datetime_at("badkeyword+01", now), Err(ParseError::UnknownDate));
    assert_eq!(parse_datetime_at("today+1", now), Err(ParseError::Format(Field::Hours)));
    assert_eq!(parse_datetime_at("today+01+02", now), Err(ParseError::Format(Field::Hours)));
    let last = ts(MAX_EPOCH_DAY, 86000, 0);
    assert_eq!(parse_datetime_at("now+01", last), Err(ParseError::OutOfRange));
}

#[test]
fn clock_reads_current_utc_day() {
    let before = chrono::Utc::now().date_naive().to_epoch_days();
    let t = today();
    let after = chrono::Utc::now().date_naive().to_epoch_days();
    assert!(before <= t.epoch_day && t.epoch_day <= after);
    assert_eq!((t.second, t.nanosecond), (0, 0));
    let d = parse_date("today").unwrap();
    assert_eq!((d.second, d.nanosecond), (0, 0));
    let n = parse_date("now").unwrap();
    assert!(before <= n.epoch_day && n.epoch_day <= after);
    let tm = parse_datetime("tomorrow+01:00:00").unwrap();
    assert_eq!((tm.second, tm.nanosecond), (3600, 0));
    assert!(before + 1 <= tm.epoch_day && tm.epoch_day <= after + 1);
    assert_eq!(parse_date("badkeyword"), Err(ParseError::UnknownDate));
}

fn args(words: &[&str]) -> ArgList {
    ArgList::new(words.iter().map(|w| w.to_string()).collect())
}

#[test]
fn actions_from_words() {
    let now = ts(20000, 100, 0);
    assert!(matches!(Action::get(&mut args(&[]), now), Ok(Action::List)));
    assert!(matches!(Action::get(&mut args(&["list"]), now), Ok(Action::List)));
    match Action::get(&mut args(&["new", "gym", "tomorrow+08", "02"]), now) {
        Ok(Action::New { name, start, every }) => {
            assert_eq!(name, "gym");
            assert_eq!(start, ts(20001, 8 * 3600, 0));
            assert_eq!(every, secs(7200));
        }
        _ => panic!("expected a new schedule"),
    }
    assert!(matches!(Action::get(&mut args(&["step", "gym"]), now), Ok(Action::Step(n)) if n == "gym"));
    assert!(matches!(Action::get(&mut args(&["next", "gym"]), now), Ok(Action::Next(n)) if n == "gym"));
    assert!(matches!(Action::get(&mut args(&["jump"]), now), Err(ArgError::UnknownAction)));
    assert!(matches!(Action::get(&mut args(&["step"]), now), Err(ArgError::MissingName)));
    assert!(matches!(Action::get(&mut args(&["next", "a/b"]), now), Err(ArgError::SlashInName)));
    assert!(matches!(Action::get(&mut args(&["new", "gym"]), now), Err(ArgError::MissingDate)));
    assert!(matches!(Action::get(&mut args(&["new", "gym", "now"]), now), Err(ArgError::MissingInterval)));
    assert!(matches!(
        Action::get(&mut args(&["new", "gym", "later", "02"]), now),
        Err(ArgError::Date(ParseError::UnknownDate))
    ));
    assert!(matches!(
        Action::get(&mut args(&["new", "gym", "now", "2"]), now),
        Err(ArgError::Interval(ParseError::Format(Field::Hours)))
    ));
}

#[test]
fn name_reads_one_word() {
    let mut a = args(&["gym", "rest"]);
    assert_eq!(name(&mut a), Ok("gym".to_string()));
    assert_eq!(name(&mut a), Ok("rest".to_string()));
    assert_eq!(name(&mut a), Err(ArgError::MissingName));
    assert_eq!(name(&mut args(&["../x"])), Err(ArgError::SlashInName));
}

#[test]
fn interval_parts() {
    assert_eq!(FormattedInterval(Duration::from_seconds(7 * 3600 + 5 * 60 + 9)).parts(), (false, 7, 5, 9));
    assert_eq!(FormattedInterval(Duration::from_nanos(-1_500_000_000)).parts(), (true, 0, 0, 1));
    assert_eq!(FormattedInterval(Duration::from_seconds(-90061)).parts(), (true, 25, 1, 1));
    assert_eq!(FormattedInterval(Duration::from_nanos(i64::MIN)).parts(), (true, 2562047, 47, 16));
}

#[test]
fn duration_between_instants() {
    let a = ts(1, 0, 0);
    let b = ts(0, 86399, 500_000_000);
    assert_eq!(a.signed_duration_since(b), Duration::from_nanos(500_000_000));
    assert_eq!(b.signed_duration_since(a), Duration::from_nanos(-500_000_000));
    assert_eq!(a.checked_add(Duration::from_nanos(-500_000_000)), Some(b));
}
