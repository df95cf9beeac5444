use price_ingest::decimal::Price;
use price_ingest::error::MalformedRow;
use price_ingest::row::{parse, parse_epoch_seconds, PriceObservation};
use price_ingest::time::{Instant, MAX_EPOCH_SECONDS, MIN_EPOCH_SECONDS};

fn record(fields: &[&str]) -> Vec<String> {
    fields.iter().map(|f| f.to_string()).collect()
}

fn seconds(text: &str) -> Option<i64> {
    parse_epoch_seconds(text).map(|t| t.epoch_seconds())
}

#[test]
fn timestamp_is_a_signed_run_of_digits() {
    assert_eq!(seconds("0"), Some(0));
    assert_eq!(seconds("1514764800"), Some(1_514_764_800));
    assert_eq!(seconds("-1"), Some(-1));
    assert_eq!(seconds("+5"), Some(5));
    assert_eq!(seconds("0012"), Some(12));
    assert_eq!(seconds("-0"), Some(0));
}

#[test]
fn timestamp_rejects_what_is_no_integer() {
    assert_eq!(seconds(""), None);
    assert_eq!(seconds("-"), None);
    assert_eq!(seconds("+"), None);
    assert_eq!(seconds("12a"), None);
    assert_eq!(seconds(" 12"), None);
    assert_eq!(seconds("12 "), None);
    assert_eq!(seconds("1-2"), None);
    assert_eq!(seconds("--2"), None);
    assert_eq!(seconds("1.5"), None);
    assert_eq!(seconds("0x10"), None);
    assert_eq!(seconds("\u{ff11}\u{ff12}"), None);
    assert_eq!(seconds("12\u{e9}"), None);
}

#[test]
fn timestamp_agrees_with_the_standard_integer_parser() {
    for text in ["7", "-7", "+7", "007", "", "+", "-", "7-", "a7", "946684800", "-62135596800"] {
        assert_eq!(seconds(text), text.parse::<i64>().ok(), "{:?}", text);
    }
}

#[test]
fn timestamp_stays_within_the_calendar() {
    assert_eq!(seconds("8210266876799"), Some(MAX_EPOCH_SECONDS));
    assert_eq!(seconds("8210266876800"), None);
    assert_eq!(seconds("-8334601228800"), Some(MIN_EPOCH_SECONDS));
    assert_eq!(seconds("-8334601228801"), None);
    assert_eq!(seconds("8334601228800"), None);
    assert_eq!(seconds("99999999999999999999999999999999"), None);
    assert_eq!(seconds("-99999999999999999999999999999999"), None);
    assert_eq!(seconds("9223372036854775807"), None);
}

#[test]
fn calendar_bounds_are_those_of_chrono() {
    assert!(chrono::DateTime::from_timestamp(MAX_EPOCH_SECONDS, 0).is_some());
    assert!(chrono::DateTime::from_timestamp(MAX_EPOCH_SECONDS + 1, 0).is_none());
    assert!(chrono::DateTime::from_timestamp(MIN_EPOCH_SECONDS, 0).is_some());
    assert!(chrono::DateTime::from_timestamp(MIN_EPOCH_SECONDS - 1, 0).is_none());
    assert_eq!(chrono::DateTime::<chrono::Utc>::MAX_UTC.timestamp(), MAX_EPOCH_SECONDS);
    assert_eq!(chrono::DateTime::<chrono::Utc>::MIN_UTC.timestamp(), MIN_EPOCH_SECONDS);
    assert!(Instant::from_epoch_seconds(MAX_EPOCH_SECONDS).is_some());
    assert!(Instant::from_epoch_seconds(MAX_EPOCH_SECONDS + 1).is_none());
    assert!(Instant::from_epoch_seconds(MIN_EPOCH_SECONDS).is_some());
    assert!(Instant::from_epoch_seconds(MIN_EPOCH_SECONDS - 1).is_none());
}

#[test]
fn record_of_three_fields_is_an_observation() {
    let obs = parse(&record(&["1514764800", "01.01.2018 02:00", "32,11"]));
    assert_eq!(
        obs,
        Ok(PriceObservation {
            timestamp: Instant::from_epoch_seconds(1_514_764_800).unwrap(),
            price: Price::new(3211, 2).unwrap(),
        })
    );
}

#[test]
fn middle_field_is_not_read() {
    let a = parse(&record(&["1514764800", "", "5"]));
    let b = parse(&record(&["1514764800", "anything; at all", "5"]));
    assert!(a.is_ok());
    assert_eq!(a, b);
}

#[test]
fn record_with_another_field_count_is_malformed() {
    assert_eq!(parse(&record(&[])), Err(MalformedRow::FieldCount));
    assert_eq!(parse(&record(&["1514764800", "32,11"])), Err(MalformedRow::FieldCount));
    assert_eq!(
        parse(&record(&["1514764800", "x", "32,11", "extra"])),
        Err(MalformedRow::FieldCount)
    );
}

#[test]
fn record_with_a_bad_timestamp_is_malformed() {
    assert_eq!(parse(&record(&["yesterday", "x", "32,11"])), Err(MalformedRow::Timestamp));
    assert_eq!(parse(&record(&["", "x", "32,11"])), Err(MalformedRow::Timestamp));
    assert_eq!(parse(&record(&["8210266876800", "x", "32,11"])), Err(MalformedRow::Timestamp));
}

#[test]
fn record_with_a_bad_price_is_malformed() {
    assert_eq!(parse(&record(&["1514764800", "x", "1,2,3"])), Err(MalformedRow::Price));
    assert_eq!(parse(&record(&["1514764800", "x", ""])), Err(MalformedRow::Price));
}

#[test]
fn timestamp_fault_comes_before_price_fault() {
    assert_eq!(parse(&record(&["soon", "x", "cheap"])), Err(MalformedRow::Timestamp));
}
