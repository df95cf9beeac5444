use price_ingest::batch::{ingest, plan, plan_records, BatchStep};
use price_ingest::decimal::Price;
use price_ingest::error::{FailureCause, IngestFailure, MalformedRow};
use price_ingest::store::IntervalStore;
use price_ingest::time::{Instant, Span};

const HEADER: &str = "Ajatempel (UTC);Kuup\u{e4}ev (Eesti aeg);NPS Eesti\n";

fn hour() -> Span {
    Span::hours(1).unwrap()
}

fn at(secs: i64) -> Instant {
    Instant::from_epoch_seconds(secs).unwrap()
}

fn starts(store: &IntervalStore) -> Vec<i64> {
    (0..store.len()).map(|i| store.get(i).unwrap().start().epoch_seconds()).collect()
}

#[test]
fn payload_rows_become_intervals_in_order() {
    let payload = format!(
        "{}1514764800;01.01.2018 02:00;32,11\n1514768400;01.01.2018 03:00;30,5\n",
        HEADER
    );
    let batch = plan(&payload, "ee", hour());
    assert_eq!(batch.len(), 2);
    assert_eq!(batch.rejected(), None);
    let first = batch.get(0).unwrap();
    assert_eq!(first.start(), at(1_514_764_800));
    assert_eq!(first.end(), at(1_514_768_400));
    assert_eq!(first.region(), "ee");
    assert_eq!(first.price(), Price::new(3211, 2).unwrap());
    let second = batch.get(1).unwrap();
    assert_eq!(second.start(), at(1_514_768_400));
    assert_eq!(second.end(), at(1_514_772_000));
    assert_eq!(second.price(), Price::new(305, 1).unwrap());
    assert!(batch.get(2).is_none());
}

#[test]
fn header_row_is_skipped_even_if_it_reads_like_data() {
    let batch = plan("1514764800;x;1,0\n1514768400;y;2,0\n", "ee", hour());
    assert_eq!(batch.len(), 1);
    assert_eq!(batch.get(0).unwrap().start(), at(1_514_768_400));
}

#[test]
fn quoted_fields_are_unquoted() {
    let payload = format!("{}\"1514764800\";\"01.01.2018 02:00\";\"32,11\"\n", HEADER);
    let batch = plan(&payload, "ee", hour());
    assert_eq!(batch.rejected(), None);
    assert_eq!(batch.get(0).unwrap().price(), Price::new(3211, 2).unwrap());
}

#[test]
fn comma_does_not_separate_fields() {
    let batch = plan("a,b,c\n1514764800,x,5\n", "ee", hour());
    assert_eq!(batch.len(), 0);
    assert_eq!(batch.rejected(), Some(MalformedRow::FieldCount));
}

#[test]
fn header_only_payload_ingests_nothing() {
    let mut store = IntervalStore::new();
    assert_eq!(ingest(&mut store, HEADER, "ee", hour()), Ok(0));
    assert_eq!(store.len(), 0);
    assert_eq!(store.latest("ee"), None);
    assert_eq!(ingest(&mut store, "", "ee", hour()), Ok(0));
    assert_eq!(store.len(), 0);
}

#[test]
fn empty_batch_leaves_the_watermark_where_it_was() {
    let mut store = IntervalStore::new();
    let payload = format!("{}1514764800;x;1,5\n", HEADER);
    assert_eq!(ingest(&mut store, &payload, "ee", hour()), Ok(1));
    let before = store.latest("ee");
    assert_eq!(ingest(&mut store, HEADER, "ee", hour()), Ok(0));
    assert_eq!(store.latest("ee"), before);
    assert_eq!(store.len(), 1);
}

#[test]
fn malformed_row_ends_the_batch_and_keeps_what_came_before() {
    let payload = format!(
        "{}1514764800;a;1,5\n1514768400;b;2,5\nnot-a-time;c;3,5\n1514775600;d;4,5\n",
        HEADER
    );
    let mut store = IntervalStore::new();
    let outcome = ingest(&mut store, &payload, "ee", hour());
    assert_eq!(
        outcome,
        Err(IngestFailure { cause: FailureCause::Row(MalformedRow::Timestamp), inserted: 2 })
    );
    assert_eq!(starts(&store), vec![1_514_764_800, 1_514_768_400]);
}

#[test]
fn malformed_first_row_stores_nothing() {
    let payload = format!("{}1514764800;a;1,2,3\n1514768400;b;2,5\n", HEADER);
    let mut store = IntervalStore::new();
    assert_eq!(
        ingest(&mut store, &payload, "ee", hour()),
        Err(IngestFailure { cause: FailureCause::Row(MalformedRow::Price), inserted: 0 })
    );
    assert_eq!(store.len(), 0);
}

#[test]
fn row_with_another_field_count_than_the_header_is_unreadable() {
    let payload = format!("{}1514764800;a;1,5\n1514768400;2,5\n1514772000;c;3,5\n", HEADER);
    let batch = plan(&payload, "ee", hour());
    assert_eq!(batch.len(), 1);
    assert_eq!(batch.rejected(), Some(MalformedRow::Unreadable));
}

#[test]
fn row_whose_window_leaves_the_calendar_is_malformed() {
    let payload = format!("{}8210266873200;a;1,5\n", HEADER);
    let batch = plan(&payload, "ee", hour());
    assert_eq!(batch.len(), 0);
    assert_eq!(batch.rejected(), Some(MalformedRow::Window));
    let payload = format!("{}8210266873199;a;1,5\n", HEADER);
    assert_eq!(plan(&payload, "ee", hour()).rejected(), None);
}

#[test]
fn records_are_planned_up_to_the_first_fault() {
    let good = |ts: &str| Some(vec![ts.to_string(), String::new(), "1,0".to_string()]);
    let records = vec![good("0"), good("3600"), None, good("7200")];
    let batch = plan_records(&records, "ee", hour());
    assert_eq!(batch.len(), 2);
    assert_eq!(batch.rejected(), Some(MalformedRow::Unreadable));
    let records = vec![good("0"), good("3600"), good("7200")];
    let batch = plan_records(&records, "ee", hour());
    assert_eq!(batch.len(), 3);
    assert_eq!(batch.rejected(), None);
    let records = vec![good("0"), Some(vec!["3600".to_string()]), None];
    let batch = plan_records(&records, "ee", hour());
    assert_eq!(batch.len(), 1);
    assert_eq!(batch.rejected(), Some(MalformedRow::FieldCount));
    let batch = plan_records(&Vec::new(), "ee", hour());
    assert_eq!(batch.len(), 0);
    assert_eq!(batch.rejected(), None);
}

#[test]
fn store_refusal_ends_the_batch_and_keeps_what_came_before() {
    let mut store = IntervalStore::new();
    let earlier = format!("{}1514768400;b;2,5\n", HEADER);
    assert_eq!(ingest(&mut store, &earlier, "ee", hour()), Ok(1));
    let payload = format!("{}1514764800;a;1,5\n1514768400;b;2,5\n1514772000;c;3,5\n", HEADER);
    assert_eq!(
        ingest(&mut store, &payload, "ee", hour()),
        Err(IngestFailure { cause: FailureCause::Store, inserted: 1 })
    );
    assert_eq!(starts(&store), vec![1_514_768_400, 1_514_764_800]);
}

#[test]
fn store_failure_is_reported_before_a_later_malformed_row() {
    let payload = format!("{}1514764800;a;1,5\n1514764800;b;2,5\noops;c;3,5\n", HEADER);
    let mut store = IntervalStore::new();
    assert_eq!(
        ingest(&mut store, &payload, "ee", hour()),
        Err(IngestFailure { cause: FailureCause::Store, inserted: 1 })
    );
}

#[test]
fn outcome_follows_what_the_store_took() {
    let payload = format!("{}1514764800;a;1,5\n1514768400;b;2,5\noops;c;3,5\n", HEADER);
    let cut = plan(&payload, "ee", hour());
    assert_eq!(
        cut.outcome(2),
        Err(IngestFailure { cause: FailureCause::Row(MalformedRow::Timestamp), inserted: 2 })
    );
    assert_eq!(
        cut.outcome(1),
        Err(IngestFailure { cause: FailureCause::Store, inserted: 1 })
    );
    assert_eq!(
        cut.outcome(0),
        Err(IngestFailure { cause: FailureCause::Store, inserted: 0 })
    );
    let payload = format!("{}1514764800;a;1,5\n1514768400;b;2,5\n", HEADER);
    let whole = plan(&payload, "ee", hour());
    assert_eq!(whole.outcome(2), Ok(2));
    assert_eq!(whole.outcome(7), Ok(2));
    assert_eq!(
        whole.outcome(1),
        Err(IngestFailure { cause: FailureCause::Store, inserted: 1 })
    );
}

#[test]
fn ingest_tags_intervals_with_the_region() {
    let payload = format!("{}1514764800;a;1,5\n", HEADER);
    let mut store = IntervalStore::new();
    assert_eq!(ingest(&mut store, &payload, "fi", hour()), Ok(1));
    assert_eq!(ingest(&mut store, &payload, "ee", hour()), Ok(1));
    assert_eq!(store.get(0).unwrap().region(), "fi");
    assert_eq!(store.get(1).unwrap().region(), "ee");
    assert_eq!(store.latest("fi"), Some(at(1_514_768_400)));
}

#[test]
fn batch_proceeds_until_it_is_stored_or_refused() {
    let payload = format!("{}1514764800;a;1,5\n1514768400;b;2,5\noops;c;3,5\n", HEADER);
    let batch = plan(&payload, "ee", hour());
    assert_eq!(batch.proceed(0, false), BatchStep::Store(batch.get(0).unwrap()));
    assert_eq!(batch.proceed(1, false), BatchStep::Store(batch.get(1).unwrap()));
    assert_eq!(batch.proceed(2, false), BatchStep::Done(batch.outcome(2)));
    assert_eq!(
        batch.proceed(1, true),
        BatchStep::Done(Err(IngestFailure { cause: FailureCause::Store, inserted: 1 }))
    );
    assert_eq!(
        batch.proceed(0, true),
        BatchStep::Done(Err(IngestFailure { cause: FailureCause::Store, inserted: 0 }))
    );
    let empty = plan(HEADER, "ee", hour());
    assert_eq!(empty.proceed(0, false), BatchStep::Done(Ok(0)));
}
