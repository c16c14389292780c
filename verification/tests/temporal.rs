use minigraf::temporal::{millis_to_timestamp_string, parse_timestamp, timestamp_text_result};

#[test]
fn test_parse_utc_datetime() {
    let ts = parse_timestamp("2024-01-15T10:00:00Z").unwrap();
    assert_eq!(ts, 1705312800000_i64);
}

#[test]
fn test_parse_date_only() {
    let ts = parse_timestamp("2023-06-01").unwrap();
    assert_eq!(ts, 1685577600000_i64);
}

#[test]
fn test_reject_timezone_offset() {
    let err = parse_timestamp("2024-01-15T10:00:00+05:30").unwrap_err();
    assert!(err.contains("timezone offsets are not supported"));
    assert!(err.contains("GHSA-wcg3-cvx6-7396"));
}

#[test]
fn test_reject_invalid_string() {
    assert!(parse_timestamp("not-a-date").is_err());
}

#[test]
fn test_multibyte_char_near_byte_offset_10_does_not_panic() {
    let s = "123456789\u{605}abc";
    assert!(parse_timestamp(s).is_err());
}

#[test]
fn test_millis_to_timestamp_roundtrip() {
    let original = "2024-01-15T10:00:00Z";
    let millis = parse_timestamp(original).unwrap();
    let back = millis_to_timestamp_string(millis).unwrap();
    assert_eq!(back, original);
}

// ----- further cases -----

#[test]
fn negative_offset_after_the_date_is_rejected() {
    let err = parse_timestamp("2024-01-15T10:00:00-05:00").unwrap_err();
    assert!(err.starts_with("INT-004: timezone offsets are not supported"));
}

#[test]
fn invalid_datetime_and_date_messages_name_the_input() {
    let err = parse_timestamp("2024-13-45T99:00:00Z").unwrap_err();
    assert!(err.starts_with("INT-004: invalid UTC timestamp '2024-13-45T99:00:00Z': "));
    let err = parse_timestamp("2024-02-30").unwrap_err();
    assert!(err.starts_with("INT-004: invalid date '2024-02-30': "));
}

#[test]
fn epoch_formats_as_1970() {
    assert_eq!(millis_to_timestamp_string(0).unwrap(), "1970-01-01T00:00:00Z");
    assert_eq!(millis_to_timestamp_string(1685577600000).unwrap(), "2023-06-01T00:00:00Z");
}

#[test]
fn out_of_range_instant_is_an_error_carrying_the_millis() {
    assert_eq!(millis_to_timestamp_string(i64::MAX).unwrap_err(), format!("INT-005: timestamp out of range: {}", i64::MAX));
    assert_eq!(timestamp_text_result(-5, None).unwrap_err(), "INT-005: timestamp out of range: -5");
    assert_eq!(timestamp_text_result(7, Some("x".to_string())).unwrap(), "x");
}
