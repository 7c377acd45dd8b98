use chrono::{Duration, Utc};

use dateconv::parse::parse_relative_time;

#[test]
fn test_parse_relative_time_days() {
    let now = Utc::now().timestamp_millis();
    let result = parse_relative_time("-7d", now);
    assert!(result.is_some());
    let parsed = result.unwrap();
    let expected = Utc::now() - Duration::days(7);
    // Allow for small time differences due to execution time
    assert!((parsed / 1000 - expected.timestamp()).abs() < 2);
}

#[test]
fn test_parse_relative_time_hours() {
    let now = Utc::now().timestamp_millis();
    let result = parse_relative_time("-1h", now);
    assert!(result.is_some());
    let parsed = result.unwrap();
    let expected = Utc::now() - Duration::hours(1);
    assert!((parsed / 1000 - expected.timestamp()).abs() < 2);
}

#[test]
fn test_parse_relative_time_minutes() {
    let now = Utc::now().timestamp_millis();
    let result = parse_relative_time("-30m", now);
    assert!(result.is_some());
    let parsed = result.unwrap();
    let expected = Utc::now() - Duration::minutes(30);
    assert!((parsed / 1000 - expected.timestamp()).abs() < 2);
}

#[test]
fn test_parse_relative_time_seconds() {
    let now = Utc::now().timestamp_millis();
    let result = parse_relative_time("-45s", now);
    assert!(result.is_some());
    let parsed = result.unwrap();
    let expected = Utc::now() - Duration::seconds(45);
    assert!((parsed / 1000 - expected.timestamp()).abs() < 2);
}

#[test]
fn test_parse_relative_time_invalid_formats() {
    let now = Utc::now().timestamp_millis();
    assert!(parse_relative_time("7d", now).is_none()); // Missing minus
    assert!(parse_relative_time("-", now).is_none()); // Just minus
    assert!(parse_relative_time("-d", now).is_none()); // Missing number
    assert!(parse_relative_time("-7", now).is_none()); // Missing unit
    assert!(parse_relative_time("-7x", now).is_none()); // Invalid unit
    assert!(parse_relative_time("--7d", now).is_none()); // Double minus
    assert!(parse_relative_time("-abc7d", now).is_none()); // Invalid number
}

#[test]
fn test_parse_relative_time_with_whitespace() {
    let now = Utc::now().timestamp_millis();
    let result = parse_relative_time(" -7d ", now);
    assert!(result.is_some());
}

#[test]
fn test_parse_relative_time_exact_offsets() {
    let now: i64 = 1700000000000;
    assert_eq!(parse_relative_time("-7d", now), Some(now - 7 * 86_400_000));
    assert_eq!(parse_relative_time("-1h", now), Some(now - 3_600_000));
    assert_eq!(parse_relative_time("-30m", now), Some(now - 30 * 60_000));
    assert_eq!(parse_relative_time("-45s", now), Some(now - 45_000));
    assert_eq!(parse_relative_time(" -7d ", now), parse_relative_time("-7d", now));
}

#[test]
fn test_parse_relative_time_plus_sign_magnitude() {
    // the magnitude is read as str::parse::<i64> reads it, so a `+`
    // inside is accepted and a huge magnitude is not
    let now: i64 = 0;
    assert_eq!(parse_relative_time("-+7d", now), Some(-(7 * 86_400_000)));
    assert!(parse_relative_time("-99999999999999999999d", now).is_none());
}
