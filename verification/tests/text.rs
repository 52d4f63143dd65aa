use chrono::TimeZone;
use history_metadata::metadata::ReadMarker;
use history_metadata::timestamp::Timestamp;

fn ts(
    year: u16,
    month: u8,
    day: u8,
    hour: u8,
    minute: u8,
    second: u8,
    millis: u16,
) -> Timestamp {
    Timestamp::new(year, month, day, hour, minute, second, millis).unwrap()
}

#[test]
fn format_is_canonical_rfc3339() {
    let t = ts(2024, 1, 1, 0, 0, 0, 0);
    assert_eq!(ReadMarker(t).to_rfc3339(), "2024-01-01T00:00:00.000Z");
    let t = ts(1999, 12, 31, 23, 59, 59, 999);
    assert_eq!(ReadMarker(t).to_rfc3339(), "1999-12-31T23:59:59.999Z");
    let t = ts(305, 7, 9, 4, 5, 6, 70);
    assert_eq!(ReadMarker(t).to_rfc3339(), "0305-07-09T04:05:06.070Z");
}

#[test]
fn format_matches_chrono_millis_form() {
    let cases = [
        (2024u16, 2u8, 29u8, 13u8, 45u8, 1u8, 5u16),
        (2023, 12, 31, 23, 0, 0, 0),
        (2000, 2, 29, 0, 0, 0, 999),
        (1970, 1, 1, 0, 0, 0, 1),
    ];
    for (y, mo, d, h, mi, s, ms) in cases {
        let ours = ReadMarker(ts(y, mo, d, h, mi, s, ms)).to_rfc3339();
        let theirs = chrono::Utc
            .with_ymd_and_hms(y as i32, mo as u32, d as u32, h as u32, mi as u32, s as u32)
            .unwrap()
            .checked_add_signed(chrono::Duration::milliseconds(ms as i64))
            .unwrap()
            .to_rfc3339_opts(chrono::SecondsFormat::Millis, true);
        assert_eq!(ours, theirs);
    }
}

#[test]
fn parse_round_trips_formatted_text() {
    let values = [
        ts(2024, 1, 1, 0, 0, 0, 0),
        ts(2000, 2, 29, 23, 59, 59, 999),
        ts(9999, 12, 31, 23, 59, 59, 999),
        ts(0, 1, 1, 0, 0, 0, 0),
    ];
    for t in values {
        let text = ReadMarker(t).to_rfc3339();
        let back = ReadMarker::from_rfc3339(&text).unwrap();
        assert_eq!(back, ReadMarker(t));
    }
}

#[test]
fn parse_accepts_exactly_the_canonical_grammar() {
    assert!(ReadMarker::from_rfc3339("2024-01-01T00:00:00.000Z").is_some());
    // wrong length or missing pieces
    assert!(ReadMarker::from_rfc3339("").is_none());
    assert!(ReadMarker::from_rfc3339("2024-01-01T00:00:00Z").is_none());
    assert!(ReadMarker::from_rfc3339("2024-01-01T00:00:00.0000Z").is_none());
    // offset must be the literal Z
    assert!(ReadMarker::from_rfc3339("2024-01-01T00:00:00.000+00:00").is_none());
    assert!(ReadMarker::from_rfc3339("2024-01-01T00:00:00.000z").is_none());
    // separators
    assert!(ReadMarker::from_rfc3339("2024/01/01T00:00:00.000Z").is_none());
    assert!(ReadMarker::from_rfc3339("2024-01-01 00:00:00.000Z").is_none());
    // field ranges
    assert!(ReadMarker::from_rfc3339("2024-13-01T00:00:00.000Z").is_none());
    assert!(ReadMarker::from_rfc3339("2024-00-01T00:00:00.000Z").is_none());
    assert!(ReadMarker::from_rfc3339("2024-01-32T00:00:00.000Z").is_none());
    assert!(ReadMarker::from_rfc3339("2024-01-00T00:00:00.000Z").is_none());
    assert!(ReadMarker::from_rfc3339("2024-01-01T24:00:00.000Z").is_none());
    assert!(ReadMarker::from_rfc3339("2024-01-01T00:60:00.000Z").is_none());
    assert!(ReadMarker::from_rfc3339("2024-01-01T00:00:60.000Z").is_none());
    // calendar validity, leap years included
    assert!(ReadMarker::from_rfc3339("2023-02-29T00:00:00.000Z").is_none());
    assert!(ReadMarker::from_rfc3339("2024-02-29T00:00:00.000Z").is_some());
    assert!(ReadMarker::from_rfc3339("1900-02-29T00:00:00.000Z").is_none());
    assert!(ReadMarker::from_rfc3339("2000-02-29T00:00:00.000Z").is_some());
    assert!(ReadMarker::from_rfc3339("2024-04-31T00:00:00.000Z").is_none());
    // non-digit in a digit position
    assert!(ReadMarker::from_rfc3339("2O24-01-01T00:00:00.000Z").is_none());
}

#[test]
fn timestamp_validity_checks_fields() {
    assert!(Timestamp::new(2024, 2, 29, 0, 0, 0, 0).is_some());
    assert!(Timestamp::new(2023, 2, 29, 0, 0, 0, 0).is_none());
    assert!(Timestamp::new(2024, 13, 1, 0, 0, 0, 0).is_none());
    assert!(Timestamp::new(2024, 1, 1, 24, 0, 0, 0).is_none());
    assert!(Timestamp::new(2024, 1, 1, 0, 0, 0, 1000).is_none());
    assert!(Timestamp::new(10000, 1, 1, 0, 0, 0, 0).is_none());
}

#[test]
fn marker_order_follows_the_instant() {
    let a = ReadMarker(ts(2023, 12, 31, 23, 59, 59, 999));
    let b = ReadMarker(ts(2024, 1, 1, 0, 0, 0, 0));
    let c = ReadMarker(ts(2024, 1, 1, 0, 0, 0, 1));
    assert!(a.le(&b));
    assert!(!b.le(&a));
    assert!(b.le(&c));
    assert!(a.le(&a));
    assert_eq!(a.date_time(), ts(2023, 12, 31, 23, 59, 59, 999));
}
