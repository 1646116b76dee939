use upt::codec::{parse_persisted, parse_time, serialize_reset};
use upt::instant::Instant;

#[test]
fn test_date_parsing() {
    let dt = Instant::from_unix(1685871491, 0);
    assert_eq!(
        parse_time("2023-06-04T09:38:11.000000000+00:00").unwrap(),
        dt
    );
    assert_eq!(
        parse_time("2023-06-04T09:38:11.000000000+00:00\n").unwrap(),
        dt
    );
    assert_eq!(parse_time("2030604T09:xy:11.000000000+00:00").is_none(), true)
}

#[test]
fn main_test_test_date_parsing() {
    let dt = Instant::from_unix(1685871491, 0);
    assert_eq!(
        parse_time("2023-06-04T09:38:11.000000000+00:00").unwrap(),
        dt
    );
    assert_eq!(
        parse_time("2023-06-04T09:38:11.000000000+00:00\n").unwrap(),
        dt
    );
    assert_eq!(parse_time("2030604T09:xy:11.000000000+00:00").is_none(), true)
}

#[test]
fn parse_offset_is_applied() {
    let dt = Instant::from_unix(1685871491, 0);
    assert_eq!(
        parse_time("2023-06-04T11:38:11.000000000+02:00").unwrap(),
        dt
    );
    assert_eq!(
        parse_time("2023-06-04T07:38:11.000000000-02:00").unwrap(),
        dt
    );
    assert_eq!(parse_time("2023-06-04T09:38:11Z").unwrap(), dt);
    assert_eq!(parse_time("2023-06-04T09:38:11z").unwrap(), dt);
}

#[test]
fn parse_fraction_scales_to_nanos() {
    assert_eq!(
        parse_time("2023-06-04T09:38:11.5+00:00").unwrap(),
        Instant::from_unix(1685871491, 500_000_000)
    );
    assert_eq!(
        parse_time("2023-06-04T09:38:11.123456789Z").unwrap(),
        Instant::from_unix(1685871491, 123_456_789)
    );
}

#[test]
fn parse_surrounding_whitespace_tolerated() {
    let dt = Instant::from_unix(1685871491, 0);
    assert_eq!(parse_time("  \t2023-06-04T09:38:11Z \r\n").unwrap(), dt);
}

#[test]
fn parse_malformed_falls_back_to_none() {
    // garbled time fields
    assert!(parse_time("2023-06-04T09:xy:11+00:00").is_none());
    // invalid date components
    assert!(parse_time("2023-13-04T09:38:11+00:00").is_none());
    assert!(parse_time("2023-00-04T09:38:11+00:00").is_none());
    assert!(parse_time("2023-02-29T09:38:11+00:00").is_none());
    assert!(parse_time("2023-06-31T09:38:11+00:00").is_none());
    // invalid time components
    assert!(parse_time("2023-06-04T24:00:00+00:00").is_none());
    assert!(parse_time("2023-06-04T09:60:11+00:00").is_none());
    assert!(parse_time("2023-06-04T09:38:61+00:00").is_none());
    // broken offsets and shapes
    assert!(parse_time("2023-06-04T09:38:11").is_none());
    assert!(parse_time("2023-06-04T09:38:11+25:00").is_none());
    assert!(parse_time("2023-06-04T09:38:11+00:60").is_none());
    assert!(parse_time("2023-06-04T09:38:11.+00:00").is_none());
    assert!(parse_time("2023-06-04X09:38:11+00:00").is_none());
    assert!(parse_time("").is_none());
    assert!(parse_time("   ").is_none());
    assert!(parse_time("not a timestamp at all").is_none());
}

#[test]
fn parse_space_and_lowercase_separators() {
    let dt = Instant::from_unix(1685871491, 0);
    assert_eq!(parse_time("2023-06-04 09:38:11Z").unwrap(), dt);
    assert_eq!(parse_time("2023-06-04t09:38:11Z").unwrap(), dt);
}

#[test]
fn parse_leap_second_folds_forward() {
    // second 60 denotes the instant one second past second 59
    assert_eq!(
        parse_time("2023-06-04T09:38:60Z").unwrap(),
        parse_time("2023-06-04T09:39:00Z").unwrap()
    );
    assert_eq!(
        parse_time("2023-12-31T23:59:60.250000000Z").unwrap(),
        parse_time("2024-01-01T00:00:00.25Z").unwrap()
    );
}

#[test]
fn parse_long_fraction_keeps_first_nine_digits() {
    assert_eq!(
        parse_time("2023-06-04T09:38:11.0123456789+00:00").unwrap(),
        Instant::from_unix(1685871491, 12_345_678)
    );
    assert_eq!(
        parse_time("2023-06-04T09:38:11.9999999999999Z").unwrap(),
        Instant::from_unix(1685871491, 999_999_999)
    );
}

#[test]
fn leap_year_dates_parse() {
    assert!(parse_time("2024-02-29T00:00:00Z").is_some());
    assert!(parse_time("2000-02-29T00:00:00Z").is_some());
    assert!(parse_time("1900-02-29T00:00:00Z").is_none());
}

#[test]
fn round_trip_preserves_instant() {
    let cases = [
        Instant::from_unix(1685871491, 0),
        Instant::from_unix(0, 0),
        Instant::from_unix(-1, 999_999_999),
        Instant::from_unix(253402300799, 0),
        Instant::from_unix(951827696, 123_000_000),
    ];
    for i in cases {
        let text = serialize_reset(&i).unwrap();
        assert_eq!(parse_time(text.as_str()).unwrap(), i);
        let padded = format!("  {}\n", text);
        assert_eq!(parse_time(padded.as_str()).unwrap(), i);
    }
}

#[test]
fn serialize_known_value() {
    let text = serialize_reset(&Instant::from_unix(1685871491, 0)).unwrap();
    assert_eq!(text, "2023-06-04T09:38:11.000000000+00:00");
}

#[test]
fn serialize_out_of_calendar_range_refused() {
    assert!(serialize_reset(&Instant::from_unix(i64::MAX, 0)).is_none());
    assert!(serialize_reset(&Instant::from_unix(i64::MIN, 0)).is_none());
}

#[test]
fn serialize_agrees_with_chrono() {
    let i = Instant::from_unix(1685871491, 500_000_000);
    let text = serialize_reset(&i).unwrap();
    let parsed = chrono::DateTime::parse_from_rfc3339(text.as_str()).unwrap();
    assert_eq!(parsed.timestamp(), 1685871491);
    assert_eq!(parsed.timestamp_subsec_nanos(), 500_000_000);
}

#[test]
fn persisted_read_absorbs_absence_and_noise() {
    assert!(parse_persisted(&None).is_none());
    assert!(parse_persisted(&Some(String::from("garbage"))).is_none());
    assert_eq!(
        parse_persisted(&Some(String::from("2023-06-04T09:38:11Z"))).unwrap(),
        Instant::from_unix(1685871491, 0)
    );
}
