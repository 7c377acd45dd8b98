use chrono::{TimeZone, Utc};

use dateconv::error::ConvError;
use dateconv::parse::{parse_abs_date, parse_abs_datetime, parse_date_expr};
use dateconv::render::format_timestamp;

#[test]
fn test_parse_absolute_datetime_exact_instant() {
    let expected = Utc.with_ymd_and_hms(2023, 1, 15, 10, 30, 0).unwrap().timestamp_millis();
    assert_eq!(parse_date_expr("2023-01-15 10:30:00", 0), Ok(expected));
    assert_eq!(parse_date_expr("2023-01-15 10:30:00", 0), Ok(1673778600000));
}

#[test]
fn test_parse_absolute_tolerates_surrounding_whitespace() {
    // arguments are trimmed before the date formats are tried
    assert_eq!(parse_date_expr(" 2023-01-15 ", 0), Ok(1673740800000));
    assert_eq!(parse_date_expr("2023-01-15 10:30:00 ", 0), Ok(1673778600000));
    assert_eq!(parse_date_expr("\t2023-01-15 10:30:00\n", 0), Ok(1673778600000));
}

#[test]
fn test_parse_absolute_date_is_midnight() {
    let expected = Utc.with_ymd_and_hms(2023, 1, 15, 0, 0, 0).unwrap().timestamp_millis();
    assert_eq!(parse_date_expr("2023-01-15", 0), Ok(expected));
    assert_eq!(parse_date_expr("2023-01-15", 0), Ok(1673740800000));
}

#[test]
fn test_round_trip_datetime_through_timestamp() {
    let ms = parse_date_expr("2023-01-15 10:30:00", 0).unwrap();
    let formatted = format_timestamp(ms).unwrap();
    assert_eq!(formatted, "2023-01-15 10:30:00 +0000");
}

#[test]
fn test_parse_flexible_field_widths() {
    // strftime-style numeric fields take one or two digits
    let expected = Utc.with_ymd_and_hms(2023, 1, 5, 3, 4, 5).unwrap().timestamp_millis();
    assert_eq!(parse_date_expr("2023-1-5 3:4:5", 0), Ok(expected));
}

#[test]
fn test_parse_rejects_garbage() {
    assert_eq!(parse_date_expr("hello", 0), Err(ConvError::UnparseableDate));
    assert_eq!(parse_date_expr("", 0), Err(ConvError::UnparseableDate));
    assert_eq!(parse_date_expr("2023/01/15", 0), Err(ConvError::UnparseableDate));
    assert_eq!(parse_date_expr("2023-01-15 10:30", 0), Err(ConvError::UnparseableDate));
    assert_eq!(parse_date_expr("2023-01-15 10:30:00 extra", 0), Err(ConvError::UnparseableDate));
}

#[test]
fn test_parse_rejects_impossible_dates() {
    assert_eq!(parse_date_expr("2023-02-29", 0), Err(ConvError::UnparseableDate));
    assert_eq!(parse_date_expr("2023-13-01", 0), Err(ConvError::UnparseableDate));
    assert_eq!(parse_date_expr("2023-00-10", 0), Err(ConvError::UnparseableDate));
    assert_eq!(parse_date_expr("2023-01-32", 0), Err(ConvError::UnparseableDate));
    assert_eq!(parse_date_expr("2023-01-15 24:00:00", 0), Err(ConvError::UnparseableDate));
}

#[test]
fn test_parse_leap_day() {
    let expected = Utc.with_ymd_and_hms(2024, 2, 29, 0, 0, 0).unwrap().timestamp_millis();
    assert_eq!(parse_date_expr("2024-02-29", 0), Ok(expected));
    assert_eq!(parse_date_expr("2000-02-29", 0).is_ok(), true);
    assert_eq!(parse_date_expr("1900-02-29", 0), Err(ConvError::UnparseableDate));
}

#[test]
fn test_parse_abs_components() {
    let c = parse_abs_datetime("0001-12-31 23:59:59").unwrap();
    assert_eq!(
        (c.year, c.month, c.day, c.hour, c.minute, c.second),
        (1, 12, 31, 23, 59, 59)
    );
    let d = parse_abs_date("9999-12-31").unwrap();
    assert_eq!((d.year, d.month, d.day, d.hour, d.minute, d.second), (9999, 12, 31, 0, 0, 0));
    assert!(parse_abs_datetime("2023-01-15").is_none());
    assert!(parse_abs_date("2023-01-15 10:30:00").is_none());
}

#[test]
fn test_parse_agrees_with_chrono_on_samples() {
    let samples = [
        "1970-01-01 00:00:00",
        "1969-07-20 20:17:40",
        "2000-02-29 12:00:00",
        "2099-12-31 00:00:00",
        "0001-01-01 00:00:00",
        "  2023-01-15 10:30:00",
        "2023-01-1510:30:00",
        "2023-01-15\u{00A0}10:30:00",
        "2023- 1-15 10:30:00",
        "+2023-01-15 10:30:00",
    ];
    for s in samples {
        let expected = Utc
            .datetime_from_str(s.trim(), "%Y-%m-%d %H:%M:%S")
            .unwrap()
            .timestamp_millis();
        assert_eq!(parse_date_expr(s, 0), Ok(expected), "sample {}", s);
    }
}

#[test]
fn test_parse_rejections_agree_with_chrono() {
    let samples = [
        "2023 -01-15 10:30:00",
        "12345-01-15 10:30:00",
        "2023:01:15 10:30:00",
        "2023-01-15T10:30:00",
    ];
    for s in samples {
        assert!(Utc.datetime_from_str(s.trim(), "%Y-%m-%d %H:%M:%S").is_err(), "sample {}", s);
        assert_eq!(parse_date_expr(s, 0), Err(ConvError::UnparseableDate), "sample {}", s);
    }
}
