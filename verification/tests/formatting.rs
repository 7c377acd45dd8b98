use chrono::{TimeZone, Utc};

use dateconv::error::ConvError;
use dateconv::render::{format_timestamp, render_i64};

#[test]
fn test_format_epoch_zero() {
    assert_eq!(format_timestamp(0), Ok(String::from("1970-01-01 00:00:00 +0000")));
}

#[test]
fn test_format_fourteen_digit_millis() {
    // clearly milliseconds: read as such, not as seconds
    assert_eq!(format_timestamp(1700000000000), Ok(String::from("2023-11-14 22:13:20 +0000")));
}

#[test]
fn test_format_at_threshold_reads_seconds() {
    // the epoch seconds of 2099-12-31 00:00:00 UTC itself is still seconds
    assert_eq!(format_timestamp(4102358400), Ok(String::from("2099-12-31 00:00:00 +0000")));
}

#[test]
fn test_format_above_threshold_reads_millis() {
    let expected = Utc
        .timestamp_opt(4102358, 0)
        .unwrap()
        .format("%Y-%m-%d %H:%M:%S %z")
        .to_string();
    assert_eq!(format_timestamp(4102358401), Ok(expected));
}

#[test]
fn test_format_negative_timestamp() {
    assert_eq!(format_timestamp(-1), Ok(String::from("1969-12-31 23:59:59 +0000")));
    assert_eq!(format_timestamp(-62167219200), Ok(String::from("0000-01-01 00:00:00 +0000")));
}

#[test]
fn test_format_last_supported_instant() {
    assert_eq!(
        format_timestamp(253402300799999),
        Ok(String::from("9999-12-31 23:59:59 +0000"))
    );
}

#[test]
fn test_format_out_of_range() {
    assert_eq!(format_timestamp(i64::MIN), Err(ConvError::OutOfRangeTimestamp));
    assert_eq!(format_timestamp(-62167219201), Err(ConvError::OutOfRangeTimestamp));
    assert_eq!(format_timestamp(253402300800999), Err(ConvError::OutOfRangeTimestamp));
    assert_eq!(format_timestamp(i64::MAX), Err(ConvError::OutOfRangeTimestamp));
}

#[test]
fn test_format_agrees_with_chrono_on_samples() {
    let samples: [i64; 6] = [1, 951827696, 2147483647, -2208988800, 4102358400, 1700000000];
    for secs in samples {
        let expected = Utc
            .timestamp_opt(secs, 0)
            .unwrap()
            .format("%Y-%m-%d %H:%M:%S %z")
            .to_string();
        assert_eq!(format_timestamp(secs), Ok(expected), "sample {}", secs);
    }
}

#[test]
fn test_render_i64_decimal() {
    assert_eq!(render_i64(0), "0");
    assert_eq!(render_i64(1673778600000), "1673778600000");
    assert_eq!(render_i64(-86400000), "-86400000");
    assert_eq!(render_i64(i64::MIN), i64::MIN.to_string());
    assert_eq!(render_i64(i64::MAX), i64::MAX.to_string());
}

#[test]
fn test_error_messages_name_the_formats() {
    let msg = ConvError::UnparseableDate.message();
    assert!(msg.contains("%Y-%m-%d %H:%M:%S"));
    assert!(msg.contains("%Y-%m-%d"));
    assert_eq!(msg, "Either %Y-%m-%d %H:%M:%S or %Y-%m-%d time format should be used!");
    assert!(!ConvError::OutOfRangeTimestamp.message().is_empty());
}
