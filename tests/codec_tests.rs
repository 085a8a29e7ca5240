use hrtracker::codec::{
    decode_datetime, decode_timedelta, encode_datetime, encode_timedelta, ByteSource, DecodeError,
    EncodeError, PrimitiveRepr, Version,
};
use hrtracker::schedule::{latest_version, RegularSchedule, ScheduleID, ID};
use hrtracker::temporal::{Duration, Timestamp, MAX_EPOCH_DAY, MIN_EPOCH_DAY};




fn ts(day: i32, second: u32, nanosecond: u32) -> Timestamp {
    Timestamp::new(day, second, nanosecond).unwrap()
}

fn round_trip(t: Timestamp) -> Timestamp {
    let mut out = Vec::new();
    encode_datetime(&t, &mut out, latest_version(), PrimitiveRepr::Varint);
    assert_eq!(out.len(), 12);
    let mut src = ByteSource::new(out);
    let back = decode_datetime(&mut src, latest_version(), PrimitiveRepr::Varint).unwrap();
    assert_eq!(src.pos, 12);
    back
}

fn triple(day: i32, second: u32, nanosecond: u32) -> Vec<u8> {
    let mut v = Vec::new();
    v.extend_from_slice(&(day as u32).to_le_bytes());
    v.extend_from_slice(&second.to_le_bytes());
    v.extend_from_slice(&nanosecond.to_le_bytes());
    v
}

#[test]
fn datetime_round_trip_values() {
    for t in [
        ts(0, 0, 0),
        ts(19723, 3600, 5),
        ts(-1, 86399, 999_999_999),
        ts(MIN_EPOCH_DAY, 0, 0),
        ts(MAX_EPOCH_DAY, 86399, 999_999_999),
    ] {
        assert_eq!(round_trip(t), t);
    }
}

#[test]
fn datetime_layout_is_little_endian() {
    let mut out = Vec::new();
    encode_datetime(&ts(-1, 258, 1), &mut out, latest_version(), PrimitiveRepr::Varint);
    assert_eq!(out, vec![255, 255, 255, 255, 2, 1, 0, 0, 1, 0, 0, 0]);
}

#[test]
fn calendar_bounds_match_chrono() {
    assert!(chrono::NaiveDate::from_epoch_days(MIN_EPOCH_DAY).is_some());
    assert!(chrono::NaiveDate::from_epoch_days(MAX_EPOCH_DAY).is_some());
    assert!(chrono::NaiveDate::from_epoch_days(MIN_EPOCH_DAY - 1).is_none());
    assert!(chrono::NaiveDate::from_epoch_days(MAX_EPOCH_DAY + 1).is_none());
    assert!(Timestamp::new(MIN_EPOCH_DAY, 0, 0).is_some());
    assert!(Timestamp::new(MAX_EPOCH_DAY, 0, 0).is_some());
    assert!(Timestamp::new(MIN_EPOCH_DAY - 1, 0, 0).is_none());
    assert!(Timestamp::new(MAX_EPOCH_DAY + 1, 0, 0).is_none());
}

#[test]
fn decode_rejects_day_outside_calendar() {
    let mut src = ByteSource::new(triple(MAX_EPOCH_DAY + 1, 0, 0));
    assert_eq!(decode_datetime(&mut src, latest_version(), PrimitiveRepr::Varint), Err(DecodeError::InvalidDate));
    let mut src = ByteSource::new(triple(i32::MIN, 0, 0));
    let e = decode_datetime(&mut src, latest_version(), PrimitiveRepr::Varint).unwrap_err();
    assert_eq!(e, DecodeError::InvalidDate);
    assert!(e.is_invalid_data());
}

#[test]
fn decode_rejects_time_out_of_range() {
    let mut src = ByteSource::new(triple(5, 86400, 0));
    assert_eq!(decode_datetime(&mut src, latest_version(), PrimitiveRepr::Varint), Err(DecodeError::InvalidTime));
    let mut src = ByteSource::new(triple(5, 86399, 1_000_000_000));
    assert_eq!(decode_datetime(&mut src, latest_version(), PrimitiveRepr::Varint), Err(DecodeError::InvalidTime));
}

#[test]
fn decode_rejects_truncated_datetime() {
    let mut bytes = triple(5, 1, 1);
    bytes.pop();
    let mut src = ByteSource::new(bytes);
    let e = decode_datetime(&mut src, latest_version(), PrimitiveRepr::Varint).unwrap_err();
    assert_eq!(e, DecodeError::UnexpectedEnd);
    assert!(!e.is_invalid_data());
}

#[test]
fn timedelta_round_trip_values() {
    for n in [0i64, 1, -1, 7_200_000_000_000, i64::MAX, i64::MIN, -1_500_000_000] {
        let d = Duration::from_nanos(n);
        let mut out = Vec::new();
        encode_timedelta(&d, &mut out, latest_version(), PrimitiveRepr::Varint).unwrap();
        assert_eq!(out, n.to_le_bytes().to_vec());
        let mut src = ByteSource::new(out);
        assert_eq!(decode_timedelta(&mut src, latest_version(), PrimitiveRepr::Varint).unwrap(), d);
    }
}

#[test]
fn from_nanos_counts_forward() {
    assert_eq!(Duration::from_nanos(-1_500_000_000), Duration { seconds: -2, nanosecond: 500_000_000 });
    assert_eq!(Duration::from_nanos(i64::MIN).num_nanoseconds(), Some(i64::MIN));
}

#[test]
fn timedelta_too_large() {
    let d = Duration { seconds: i64::MAX, nanosecond: 0 };
    let mut out = vec![9u8];
    assert_eq!(encode_timedelta(&d, &mut out, latest_version(), PrimitiveRepr::Varint), Err(EncodeError::TooLarge));
    assert_eq!(out, vec![9u8]);
    let d = Duration { seconds: 9_223_372_036, nanosecond: 854_775_808 };
    assert_eq!(encode_timedelta(&d, &mut out, latest_version(), PrimitiveRepr::Varint), Err(EncodeError::TooLarge));
    let d = Duration { seconds: 9_223_372_036, nanosecond: 854_775_807 };
    assert_eq!(encode_timedelta(&d, &mut out, latest_version(), PrimitiveRepr::Varint), Ok(()));
}

#[test]
fn identifier_checks_every_byte() {
    let mut out = Vec::new();
    let id: ID<RegularSchedule> = ID(std::marker::PhantomData);
    id.encode(&mut out, latest_version(), PrimitiveRepr::Varint);
    assert_eq!(out, b"regular ".to_vec());
    assert_eq!(RegularSchedule::id_bytes(), *b"regular ");
    assert_eq!(RegularSchedule::id_name(), "regular schedule");
    let mut src = ByteSource::new(b"regular trailing".to_vec());
    assert!(ID::<RegularSchedule>::decode(&mut src, latest_version(), PrimitiveRepr::Varint).is_ok());
    assert_eq!(src.pos, 8);
    let mut src = ByteSource::new(b"regulaR ".to_vec());
    assert!(matches!(ID::<RegularSchedule>::decode(&mut src, latest_version(), PrimitiveRepr::Varint), Err(DecodeError::WrongTag)));
    let mut src = ByteSource::new(b"regular".to_vec());
    assert!(matches!(
        ID::<RegularSchedule>::decode(&mut src, latest_version(), PrimitiveRepr::Varint),
        Err(DecodeError::UnexpectedEnd)
    ));
}

fn record_bytes(tag: &[u8]) -> Vec<u8> {
    let mut b = vec![0, 0, 0, 0, 2, 0];
    b.extend_from_slice(tag);
    b.extend_from_slice(&triple(20000, 3600, 0));
    b.extend_from_slice(&7_200_000_000_000i64.to_le_bytes());
    b
}

#[test]
fn wrong_tag_is_invalid_data_whatever_follows() {
    for tag in [b"schedule", b"REGULAR ", b"\0\0\0\0\0\0\0\0"] {
        let e = RegularSchedule::open(record_bytes(tag)).unwrap_err();
        assert_eq!(e, DecodeError::WrongTag);
        assert!(e.is_invalid_data());
    }
    let mut b = vec![0, 0, 0, 0, 2, 0];
    b.extend_from_slice(b"irregula");
    assert_eq!(RegularSchedule::open(b), Err(DecodeError::WrongTag));
}

#[test]
fn corrupt_tag_file_is_refused() {
    let mut s = RegularSchedule::create(ts(20000, 0, 0), Duration::from_seconds(60));
    let mut bytes = s.save().unwrap();
    bytes[6..14].copy_from_slice(b"not mine");
    assert_eq!(RegularSchedule::open(bytes), Err(DecodeError::WrongTag));
}

#[test]
fn open_reads_known_bytes() {
    let s = RegularSchedule::open(record_bytes(b"regular ")).unwrap();
    assert_eq!(s.version, Version(0, 0, 2));
    assert_eq!(s.next, ts(20000, 3600, 0));
    assert_eq!(s.interval, Duration::from_seconds(7200));
}

#[test]
fn older_version_has_no_tag() {
    let mut b = vec![0, 0, 0, 0, 1, 0];
    b.extend_from_slice(&triple(3, 4, 5));
    b.extend_from_slice(&60_000_000_000i64.to_le_bytes());
    let mut s = RegularSchedule::open(b).unwrap();
    assert_eq!(s.version, Version(0, 0, 1));
    assert_eq!(s.next, ts(3, 4, 5));
    let saved = s.save().unwrap();
    assert_eq!(s.version, latest_version());
    assert_eq!(&saved[0..14], &[0, 0, 0, 0, 2, 0, b'r', b'e', b'g', b'u', b'l', b'a', b'r', b' ']);
}

#[test]
fn open_truncated_record() {
    let mut b = record_bytes(b"regular ");
    b.truncate(b.len() - 1);
    assert_eq!(RegularSchedule::open(b), Err(DecodeError::UnexpectedEnd));
    assert_eq!(RegularSchedule::open(vec![0, 0]), Err(DecodeError::UnexpectedEnd));
}

#[test]
fn end_to_end_gym() {
    let t = ts(20000, 8 * 3600, 0);
    let two_hours = Duration::from_seconds(7200);
    let mut gym = RegularSchedule::create(t, two_hours);
    let bytes = gym.save().unwrap();
    let mut opened = RegularSchedule::open(bytes).unwrap();
    assert_eq!(opened.next, t);
    assert_eq!(opened.interval, two_hours);
    assert!(opened.advance());
    assert_eq!(opened.next, ts(20000, 10 * 3600, 0));
    let again = opened.save().unwrap();
    assert_eq!(RegularSchedule::open(again).unwrap(), opened);
}

#[test]
fn advance_crosses_midnight_and_stops_at_calendar_end() {
    let mut s = RegularSchedule::create(ts(-1, 86000, 5), Duration::from_seconds(1000));
    assert!(s.advance());
    assert_eq!(s.next, ts(0, 600, 5));
    let mut back = RegularSchedule::create(ts(0, 0, 0), Duration::from_nanos(-1));
    assert!(back.advance());
    assert_eq!(back.next, ts(-1, 86399, 999_999_999));
    let mut last = RegularSchedule::create(ts(MAX_EPOCH_DAY, 86399, 0), Duration::from_seconds(1));
    let before = last;
    assert!(!last.advance());
    assert_eq!(last, before);
}

#[test]
fn save_refuses_oversized_interval() {
    let mut s = RegularSchedule::create(ts(0, 0, 0), Duration { seconds: i64::MIN, nanosecond: 0 });
    assert_eq!(s.save(), Err(EncodeError::TooLarge));
}
