use chrono::Utc;

use dateconv::convert::convert_arg;
use dateconv::error::ConvError;
use dateconv::text::parse_i64;

#[test]
fn test_parse_i64_matches_std() {
    let samples = [
        "0",
        "-1",
        "+42",
        "007",
        "9223372036854775807",
        "-9223372036854775808",
        "9223372036854775808",
        "-9223372036854775809",
        "99999999999999999999999",
        "",
        "+",
        "-",
        "1a",
        " 1",
        "1 ",
        "+-1",
        "--1",
    ];
    for s in samples {
        assert_eq!(parse_i64(s), s.parse::<i64>().ok(), "sample {:?}", s);
    }
}

#[test]
fn test_convert_arg_integer_prints_date() {
    let now = Utc::now().timestamp_millis();
    assert_eq!(convert_arg("0", now), Ok(String::from("1970-01-01 00:00:00 +0000")));
    assert_eq!(
        convert_arg("1700000000000", now),
        Ok(String::from("2023-11-14 22:13:20 +0000"))
    );
}

#[test]
fn test_convert_arg_date_prints_millis() {
    let now = Utc::now().timestamp_millis();
    assert_eq!(convert_arg("2023-01-15", now), Ok(String::from("1673740800000")));
    assert_eq!(
        convert_arg("2023-01-15 10:30:00", now),
        Ok(String::from("1673778600000"))
    );
    assert_eq!(convert_arg("1969-12-31", now), Ok(String::from("-86400000")));
}

#[test]
fn test_convert_arg_relative_uses_supplied_now() {
    let now: i64 = 1700000000000;
    assert_eq!(convert_arg("-45s", now), Ok((now - 45_000).to_string()));
    assert_eq!(convert_arg("-7d", now), Ok((now - 7 * 86_400_000).to_string()));
}

#[test]
fn test_convert_arg_errors() {
    let now = Utc::now().timestamp_millis();
    assert_eq!(convert_arg("not-a-date", now), Err(ConvError::UnparseableDate));
    assert_eq!(
        convert_arg(&i64::MAX.to_string(), now),
        Err(ConvError::OutOfRangeTimestamp)
    );
}
