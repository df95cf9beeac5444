use price_ingest::fetch::{FetchRequest, FetchWindow};
use price_ingest::time::{Instant, Span, MAX_EPOCH_SECONDS};

fn window(start: i64, seconds: i64) -> FetchWindow {
    FetchWindow {
        region: "ee".to_string(),
        start: Instant::from_epoch_seconds(start).unwrap(),
        duration: Span::seconds(seconds).unwrap(),
    }
}

#[test]
fn request_covers_the_window_up_to_its_last_second() {
    let request = window(1_514_764_800, 172_800).request();
    assert_eq!(
        request,
        Some(FetchRequest {
            start: "2018-01-01T00:00:00+00:00".to_string(),
            end: "2018-01-02T23:59:59+00:00".to_string(),
            fields: "ee".to_string(),
        })
    );
}

#[test]
fn request_of_one_second_starts_and_ends_together() {
    let request = window(0, 1).request().unwrap();
    assert_eq!(request.start, "1970-01-01T00:00:00+00:00");
    assert_eq!(request.end, "1970-01-01T00:00:00+00:00");
}

#[test]
fn request_ends_within_the_calendar() {
    assert!(window(MAX_EPOCH_SECONDS - 10, 11).request().is_none());
    let last = window(MAX_EPOCH_SECONDS - 10, 10).request().unwrap();
    assert_eq!(last.start, "+262142-12-31T23:59:49+00:00");
    assert_eq!(last.end, "+262142-12-31T23:59:58+00:00");
}

#[test]
fn instant_is_written_as_chrono_writes_it() {
    for secs in [0i64, -1, 951_782_400, 1_514_764_800, 4_102_444_799, -62_167_219_200] {
        let ours = Instant::from_epoch_seconds(secs).unwrap().to_rfc3339();
        let theirs = chrono::DateTime::from_timestamp(secs, 0).unwrap().to_rfc3339();
        assert_eq!(ours, theirs);
        let back = chrono::DateTime::parse_from_rfc3339(&ours).unwrap();
        assert_eq!(back.timestamp(), secs);
    }
}
