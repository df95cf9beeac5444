use price_ingest::decimal::Price;
use price_ingest::error::ConstraintViolation;
use price_ingest::interval::{build, PriceInterval};
use price_ingest::row::PriceObservation;
use price_ingest::store::IntervalStore;
use price_ingest::time::{Instant, Span, MAX_EPOCH_SECONDS, MAX_SPAN_SECONDS};

fn at(secs: i64) -> Instant {
    Instant::from_epoch_seconds(secs).unwrap()
}

fn hour() -> Span {
    Span::hours(1).unwrap()
}

fn interval(start: i64, region: &str) -> PriceInterval {
    let obs = PriceObservation { timestamp: at(start), price: Price::new(10, 0).unwrap() };
    build(obs, hour(), region).unwrap()
}

#[test]
fn interval_spans_one_period_from_the_sample() {
    let obs = PriceObservation { timestamp: at(1_514_764_800), price: Price::new(3211, 2).unwrap() };
    let iv = build(obs, hour(), "ee").unwrap();
    assert_eq!(iv.start().epoch_seconds(), 1_514_764_800);
    assert_eq!(iv.end().epoch_seconds(), 1_514_768_400);
    assert_eq!(iv.region(), "ee");
    assert_eq!(iv.price(), Price::new(3211, 2).unwrap());
}

#[test]
fn interval_ends_within_the_calendar() {
    let obs = PriceObservation { timestamp: at(MAX_EPOCH_SECONDS - 3599), price: Price::new(1, 0).unwrap() };
    assert!(build(obs, hour(), "ee").is_none());
    let obs = PriceObservation { timestamp: at(MAX_EPOCH_SECONDS - 3600), price: Price::new(1, 0).unwrap() };
    assert_eq!(build(obs, hour(), "ee").unwrap().end().epoch_seconds(), MAX_EPOCH_SECONDS);
}

#[test]
fn spans_are_positive_and_bounded() {
    assert!(Span::seconds(0).is_none());
    assert!(Span::seconds(-1).is_none());
    assert_eq!(Span::seconds(1).unwrap().as_seconds(), 1);
    assert_eq!(Span::hours(1).unwrap().as_seconds(), 3600);
    assert_eq!(Span::days(2).unwrap().as_seconds(), 172_800);
    assert_eq!(Span::seconds(MAX_SPAN_SECONDS).unwrap().as_seconds(), MAX_SPAN_SECONDS);
    assert!(Span::seconds(MAX_SPAN_SECONDS + 1).is_none());
    assert!(Span::hours(i64::MAX).is_none());
    assert!(Span::days(i64::MAX / 2).is_none());
    assert!(Span::hours(0).is_none());
    assert!(chrono::TimeDelta::try_seconds(MAX_SPAN_SECONDS).is_some());
    assert!(chrono::TimeDelta::try_seconds(MAX_SPAN_SECONDS + 1).is_none());
}

#[test]
fn instant_addition_is_checked() {
    let t = at(10);
    assert_eq!(t.checked_add(Span::seconds(5).unwrap()), Some(at(15)));
    assert_eq!(at(MAX_EPOCH_SECONDS).checked_add(Span::seconds(1).unwrap()), None);
    assert_eq!(at(0).checked_add(Span::seconds(MAX_SPAN_SECONDS).unwrap()), None);
    assert!(at(1).is_before(&at(2)));
    assert!(!at(2).is_before(&at(2)));
}

#[test]
fn intervals_overlap_only_within_a_region() {
    let a = interval(0, "ee");
    let b = interval(1800, "ee");
    let c = interval(3600, "ee");
    let d = interval(1800, "fi");
    assert!(a.overlaps(&b));
    assert!(b.overlaps(&a));
    assert!(!a.overlaps(&c));
    assert!(!c.overlaps(&a));
    assert!(!a.overlaps(&d));
    assert!(a.overlaps(&a.clone()));
}

#[test]
fn store_refuses_what_overlaps() {
    let mut store = IntervalStore::new();
    assert_eq!(store.insert(&interval(0, "ee")), Ok(()));
    assert_eq!(store.insert(&interval(3600, "ee")), Ok(()));
    assert_eq!(store.insert(&interval(0, "ee")), Err(ConstraintViolation));
    assert_eq!(store.insert(&interval(5000, "ee")), Err(ConstraintViolation));
    assert_eq!(store.insert(&interval(-10, "ee")), Err(ConstraintViolation));
    assert_eq!(store.len(), 2);
    assert_eq!(store.insert(&interval(0, "fi")), Ok(()));
    assert_eq!(store.insert(&interval(7200, "ee")), Ok(()));
    assert_eq!(store.len(), 4);
    assert_eq!(store.get(3), Some(&interval(7200, "ee")));
    assert_eq!(store.get(4), None);
}

#[test]
fn stored_intervals_never_overlap() {
    let mut store = IntervalStore::new();
    for start in [0, 1800, 3600, 100, 7200, 5400, 7199, 10800] {
        let _ = store.insert(&interval(start, "ee"));
        let _ = store.insert(&interval(start + 900, "lv"));
    }
    for i in 0..store.len() {
        for j in 0..i {
            assert!(!store.get(i).unwrap().overlaps(store.get(j).unwrap()));
        }
    }
}

#[test]
fn watermark_is_the_latest_end_of_the_region() {
    let mut store = IntervalStore::new();
    assert_eq!(store.latest("ee"), None);
    store.insert(&interval(7200, "ee")).unwrap();
    store.insert(&interval(0, "ee")).unwrap();
    store.insert(&interval(36000, "fi")).unwrap();
    assert_eq!(store.latest("ee"), Some(at(10800)));
    assert_eq!(store.latest("fi"), Some(at(39600)));
    assert_eq!(store.latest("lv"), None);
    store.insert(&interval(3600, "ee")).unwrap();
    assert_eq!(store.latest("ee"), Some(at(10800)));
    store.insert(&interval(10800, "ee")).unwrap();
    assert_eq!(store.latest("ee"), Some(at(14400)));
}

#[test]
fn instant_addition_agrees_with_chrono() {
    let instants = [MAX_EPOCH_SECONDS, MAX_EPOCH_SECONDS - 3600, 0, -1, 1_514_764_800];
    let spans = [1, 3599, 3600, 3601, 172_800, MAX_SPAN_SECONDS];
    for secs in instants {
        for length in spans {
            let ours = at(secs).checked_add(Span::seconds(length).unwrap());
            let theirs = chrono::DateTime::from_timestamp(secs, 0)
                .unwrap()
                .checked_add_signed(chrono::TimeDelta::seconds(length));
            assert_eq!(ours.map(|t| t.epoch_seconds()), theirs.map(|t| t.timestamp()));
        }
    }
}
