use aze::cli::parse_to_datetime;
use chrono::{Datelike, Timelike};

const FORMAT: &str = "%Y-%m-%d %H:%M";

fn parts(ts: i64) -> chrono::NaiveDateTime {
    chrono::DateTime::from_timestamp(ts, 0)
        .expect("timestamp out of range")
        .naive_utc()
}

#[test]
fn parse_with_date() {
    let ts = parse_to_datetime("2000-02-03", FORMAT).unwrap();
    let result = parts(ts);

    assert_eq!(2000, result.year());
    assert_eq!(2, result.month());
    assert_eq!(3, result.day());
    assert_eq!(0, result.hour());
    assert_eq!(0, result.minute());
}

#[test]
fn parse_with_datetime() {
    let ts = parse_to_datetime("2000-02-03 04:05", FORMAT).unwrap();
    let result = parts(ts);

    assert_eq!(2000, result.year());
    assert_eq!(2, result.month());
    assert_eq!(3, result.day());
    assert_eq!(4, result.hour());
    assert_eq!(5, result.minute());
}

#[test]
fn parse_rejects_garbage() {
    assert!(parse_to_datetime("test1", FORMAT).is_none());
}
