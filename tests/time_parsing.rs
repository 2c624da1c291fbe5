use nanji::cli::{convert_valid_time_to_timezone_utc, is_valid_time, parse_time};
use nanji::zone::{resolve_local_time, ConvertError, LocalOffsets};

#[test]
fn valid_times_ok() {
    for t in ["0:00", "9:00", "09:00", "09:10", "23:59", "00:00"] {
        assert!(is_valid_time(t), "expected valid: {t}");
    }
}

#[test]
fn invalid_times_ng() {
    for t in ["24:00", "31:00", "09:60", "9:7", "-1:00", "aa:bb", "9:000", "9::00"] {
        assert!(!is_valid_time(t), "expected invalid: {t}");
    }
}

fn round_trip(zone: &str, text: &str) -> (i8, i8) {
    let tz = jiff::tz::TimeZone::get(zone).unwrap();
    let time = parse_time(text).unwrap();
    let instant = convert_valid_time_to_timezone_utc(&time, &tz).unwrap();
    let local = jiff::Timestamp::from_second(instant.seconds).unwrap().to_zoned(tz);
    (local.hour(), local.minute())
}

#[test]
fn convert_roundtrip_hour_minute_match_tokyo() {
    let (hour, minute) = round_trip("Asia/Tokyo", "09:10");
    assert_eq!(hour, 9);
    assert_eq!(minute, 10);
}

#[test]
fn convert_roundtrip_hour_minute_match_dallas() {
    let (hour, minute) = round_trip("America/Chicago", "9:00");
    assert_eq!(hour, 9);
    assert_eq!(minute, 0);
}

#[test]
fn parse_time_reads_hour_and_minute() {
    let t = parse_time("9:05").unwrap();
    assert_eq!((t.hour, t.minute), (9, 5));
    let t = parse_time("23:59").unwrap();
    assert_eq!((t.hour, t.minute), (23, 59));
    let t = parse_time("00:00").unwrap();
    assert_eq!((t.hour, t.minute), (0, 0));
}

#[test]
fn parse_time_rejects_with_one_message() {
    let e = parse_time("31:00").unwrap_err();
    assert_eq!(e, "invalid time format: '31:00'. expected H:MM or HH:MM (00-23:00-59)");
    assert!(parse_time("").is_err());
    assert!(parse_time("12:3a").is_err());
    assert!(parse_time(" 9:00").is_err());
}

#[test]
fn gap_is_a_distinct_error() {
    let r = resolve_local_time(1_710_037_800, LocalOffsets::Gap(-18000, -14400));
    assert_eq!(r, Err(ConvertError::NonexistentLocalTime));
    assert!(!ConvertError::NonexistentLocalTime.message().is_empty());
    assert!(ConvertError::NonexistentLocalTime.message().contains("DST"));
}

#[test]
fn fold_takes_the_earlier_instant() {
    // 2024-11-03T01:30 read as UTC; New York gives -04:00 then -05:00.
    let local = 1_730_597_400;
    let r = resolve_local_time(local, LocalOffsets::Fold(-14400, -18000)).unwrap();
    assert_eq!(r.seconds, local + 14400);
    let r = resolve_local_time(local, LocalOffsets::Fold(-18000, -14400)).unwrap();
    assert_eq!(r.seconds, local + 14400);
}

#[test]
fn single_offset_is_subtracted() {
    let r = resolve_local_time(32_400, LocalOffsets::Unambiguous(32_400)).unwrap();
    assert_eq!(r.seconds, 0);
}
