//! One fetched payload, from text to stored intervals.
//!
//! The payload is delimited text with a header row. Its records are read in
//! order; the first malformed record ends the batch, and nothing at or after
//! it is stored. What came before it is stored row by row, and stays stored.

use crate::error::{FailureCause, IngestFailure, MalformedRow};
use crate::interval::{build, interval_of, Interval, PriceInterval};
use crate::row::{field_texts, parse, parsed_row};
use crate::store::{conflicts, IntervalStore};
use crate::time::{is_instant, Span};
use vstd::prelude::*;

verus! {

/// The byte that separates the fields of a record: `;`.
pub const DELIMITER: u8 = 59;

/// The records that the `csv` reader finds in `payload`, in order: each is
/// its fields, or `None` where the reader reports an error in its place.
/// With `has_headers` the first record is taken as the header and left out.
pub uninterp spec fn csv_records(payload: Seq<char>, delimiter: u8, has_headers: bool) -> Seq<
    Option<Seq<Seq<char>>>,
>;

/// The text of the fields of each record.
pub open spec fn record_texts(records: Seq<Option<Vec<String>>>) -> Seq<Option<Seq<Seq<char>>>> {
    records.map_values(
        |record: Option<Vec<String>>|
            match record {
                Some(fields) => Some(field_texts(fields@)),
                None => None,
            },
    )
}

/// Builds a `csv::Reader` over the payload's bytes with
/// `csv::ReaderBuilder::{new, delimiter, has_headers, from_reader}` and
/// collects what `csv::Reader::records` yields. The contract claims that the
/// outcome depends on the payload and the two settings alone.
#[verifier::external_body]
fn read_records(payload: &str, delimiter: u8, has_headers: bool) -> (records: Vec<
    Option<Vec<String>>,
>)
    ensures
        record_texts(records@) == csv_records(payload@, delimiter, has_headers),
{
    let mut reader = csv::ReaderBuilder::new().delimiter(delimiter).has_headers(
        has_headers,
    ).from_reader(payload.as_bytes());
    reader.records().map(|r| r.ok().map(|rec| rec.iter().map(String::from).collect())).collect()
}

/// What one record is worth: the interval to store, or why there is none.
pub open spec fn row_interval(record: Option<Seq<Seq<char>>>, period: int, region: Seq<char>) -> Result<
    Interval,
    MalformedRow,
> {
    match record {
        None => Err(MalformedRow::Unreadable),
        Some(fields) => match parsed_row(fields) {
            Err(fault) => Err(fault),
            Ok(obs) => if is_instant(obs.at + period) {
                Ok(interval_of(obs, period, region))
            } else {
                Err(MalformedRow::Window)
            },
        },
    }
}

/// The index of the first malformed record at or after `from`, or the number
/// of records where there is none.
pub open spec fn first_fault_from(
    records: Seq<Option<Seq<Seq<char>>>>,
    period: int,
    region: Seq<char>,
    from: int,
) -> int
    decreases records.len() - from,
{
    if from >= records.len() {
        records.len() as int
    } else if row_interval(records[from], period, region) is Err {
        from
    } else {
        first_fault_from(records, period, region, from + 1)
    }
}

/// What a payload's records are worth as a batch.
pub struct Plan {
    /// The intervals to store, in order.
    pub intervals: Seq<Interval>,
    /// Why the batch ends before the last record, if it does.
    pub rejected: Option<MalformedRow>,
}

/// The batch that `records` make: the intervals of the records before the
/// first malformed one, and that record's fault.
pub open spec fn plan_of(records: Seq<Option<Seq<Seq<char>>>>, period: int, region: Seq<char>) -> Plan {
    let n = first_fault_from(records, period, region, 0);
    Plan {
        intervals: Seq::new(n as nat, |i: int| row_interval(records[i], period, region)->Ok_0),
        rejected: if n < records.len() {
            Some(row_interval(records[n], period, region)->Err_0)
        } else {
            None
        },
    }
}

/// How many of `planned` a store that holds `rows` takes, one after the
/// other from `from` on, before it refuses one.
pub open spec fn first_refused_from(rows: Seq<Interval>, planned: Seq<Interval>, from: int) -> int
    decreases planned.len() - from,
{
    if from >= planned.len() {
        planned.len() as int
    } else if from < 0 || conflicts(rows + planned.take(from), planned[from]) {
        from
    } else {
        first_refused_from(rows, planned, from + 1)
    }
}

/// How a batch ends, given how many intervals were planned, the fault that
/// cut the plan short, and how many intervals the store took: a store that
/// took fewer than planned has failed; else a malformed record fails the
/// batch; else the batch succeeds with the count of what was stored.
pub open spec fn batch_outcome(planned: int, rejected: Option<MalformedRow>, stored: int) -> Result<
    usize,
    IngestFailure,
> {
    if stored < planned {
        Err(IngestFailure { cause: FailureCause::Store, inserted: stored as usize })
    } else {
        match rejected {
            Some(fault) => Err(
                IngestFailure { cause: FailureCause::Row(fault), inserted: planned as usize },
            ),
            None => Ok(planned as usize),
        }
    }
}

/// The first malformed record splits the batch: every record before it is
/// planned, in order, and neither it nor any record after it is.
pub proof fn lemma_plan_stops_at_first_fault(
    records: Seq<Option<Seq<Seq<char>>>>,
    period: int,
    region: Seq<char>,
)
    ensures
        ({
            let plan = plan_of(records, period, region);
            let n = plan.intervals.len() as int;
            &&& n <= records.len()
            &&& forall|i: int|
                0 <= i < n ==> row_interval(#[trigger] records[i], period, region) == Ok::<
                    Interval,
                    MalformedRow,
                >(plan.intervals[i])
            &&& plan.rejected is None <==> n == records.len()
            &&& plan.rejected matches Some(fault) ==> row_interval(records[n], period, region)
                == Err::<Interval, MalformedRow>(fault)
        }),
{
    lemma_first_fault_from(records, period, region, 0);
}

proof fn lemma_first_fault_from(
    records: Seq<Option<Seq<Seq<char>>>>,
    period: int,
    region: Seq<char>,
    from: int,
)
    requires
        0 <= from <= records.len(),
    ensures
        ({
            let n = first_fault_from(records, period, region, from);
            &&& from <= n <= records.len()
            &&& forall|i: int|
                from <= i < n ==> row_interval(#[trigger] records[i], period, region) is Ok
            &&& n < records.len() ==> row_interval(records[n], period, region) is Err
        }),
    decreases records.len() - from,
{
    if from < records.len() && row_interval(records[from], period, region) is Ok {
        lemma_first_fault_from(records, period, region, from + 1);
    }
}

proof fn lemma_first_refused_from(rows: Seq<Interval>, planned: Seq<Interval>, from: int)
    requires
        0 <= from <= planned.len(),
    ensures
        from <= first_refused_from(rows, planned, from) <= planned.len(),
    decreases planned.len() - from,
{
    if from < planned.len() && !conflicts(rows + planned.take(from), planned[from]) {
        lemma_first_refused_from(rows, planned, from + 1);
    }
}

/// Whatever the store held before a batch, after it the store holds that
/// and then, in order, intervals of records that come before the first
/// malformed one: no record at or after it adds anything, and nothing is
/// stored that is not the interval of a well-formed record.
pub proof fn lemma_nothing_malformed_is_stored(
    records: Seq<Option<Seq<Seq<char>>>>,
    period: int,
    region: Seq<char>,
    rows: Seq<Interval>,
)
    ensures
        ({
            let plan = plan_of(records, period, region);
            let first_fault = first_fault_from(records, period, region, 0);
            let stored = first_refused_from(rows, plan.intervals, 0);
            let after = rows + plan.intervals.take(stored);
            &&& 0 <= stored <= first_fault <= records.len()
            &&& after.len() == rows.len() + stored
            &&& forall|i: int| 0 <= i < rows.len() ==> #[trigger] after[i] == rows[i]
            &&& forall|j: int|
                0 <= j < stored ==> row_interval(#[trigger] records[j], period, region) == Ok::<
                    Interval,
                    MalformedRow,
                >(after[rows.len() + j])
        }),
{
    let plan = plan_of(records, period, region);
    lemma_plan_stops_at_first_fault(records, period, region);
    lemma_first_fault_from(records, period, region, 0);
    assert(plan.intervals.len() == first_fault_from(records, period, region, 0));
    lemma_first_refused_from(rows, plan.intervals, 0);
    let stored = first_refused_from(rows, plan.intervals, 0);
    let after = rows + plan.intervals.take(stored);
    assert forall|j: int| 0 <= j < stored implies row_interval(
        #[trigger] records[j],
        period,
        region,
    ) == Ok::<Interval, MalformedRow>(after[rows.len() + j]) by {
        assert(after[rows.len() + j] == plan.intervals.take(stored)[j]);
        assert(plan.intervals.take(stored)[j] == plan.intervals[j]);
    }
}

/// A payload without data rows makes an empty batch, which succeeds with a
/// count of zero and leaves the store as it is.
pub proof fn lemma_empty_batch(
    records: Seq<Option<Seq<Seq<char>>>>,
    period: int,
    region: Seq<char>,
    rows: Seq<Interval>,
)
    requires
        records.len() == 0,
    ensures
        ({
            let plan = plan_of(records, period, region);
            let stored = first_refused_from(rows, plan.intervals, 0);
            &&& plan.intervals.len() == 0
            &&& plan.rejected is None
            &&& stored == 0
            &&& rows + plan.intervals.take(stored) == rows
            &&& batch_outcome(0, plan.rejected, stored) == Ok::<usize, IngestFailure>(0)
        }),
{
    let plan = plan_of(records, period, region);
    assert(rows + plan.intervals.take(0) =~= rows);
}

/// A batch ready to be stored.
#[derive(Debug, PartialEq, Eq)]
pub struct BatchPlan {
    intervals: Vec<PriceInterval>,
    rejected: Option<MalformedRow>,
}

impl View for BatchPlan {
    type V = Plan;

    closed spec fn view(&self) -> Plan {
        Plan {
            intervals: self.intervals@.map_values(|interval: PriceInterval| interval@),
            rejected: self.rejected,
        }
    }
}

/// What the driver of a batch is to do next.
#[derive(Debug, PartialEq, Eq)]
pub enum BatchStep<'a> {
    /// Store this interval, and come back with how that went.
    Store(&'a PriceInterval),
    /// The batch has ended, with the count of rows stored or with a failure.
    Done(Result<usize, IngestFailure>),
}

impl BatchPlan {
    /// What to do once the store has taken the first `stored` intervals of
    /// the batch: store the next one, unless the store has just `refused`
    /// it or none is left; then the batch has ended.
    pub fn proceed(&self, stored: usize, refused: bool) -> (next: BatchStep<'_>)
        ensures
            match next {
                BatchStep::Store(interval) => !refused && stored < self@.intervals.len()
                    && interval@ == self@.intervals[stored as int],
                BatchStep::Done(outcome) => (refused || stored >= self@.intervals.len())
                    && outcome == batch_outcome(
                    self@.intervals.len() as int,
                    self@.rejected,
                    stored as int,
                ),
            },
    {
        if !refused && stored < self.intervals.len() {
            BatchStep::Store(&self.intervals[stored])
        } else {
            BatchStep::Done(self.outcome(stored))
        }
    }

    /// How many intervals are to be stored.
    pub fn len(&self) -> (n: usize)
        ensures
            n == self@.intervals.len(),
    {
        self.intervals.len()
    }

    /// The `i`-th interval to store, if there are that many.
    pub fn get(&self, i: usize) -> (r: Option<&PriceInterval>)
        ensures
            r is Some <==> i < self@.intervals.len(),
            r matches Some(interval) ==> interval@ == self@.intervals[i as int],
    {
        if i < self.intervals.len() {
            Some(&self.intervals[i])
        } else {
            None
        }
    }

    /// The fault of the record that cut the batch short, if one did.
    pub fn rejected(&self) -> (r: Option<MalformedRow>)
        ensures
            r == self@.rejected,
    {
        self.rejected
    }

    /// How the batch ends once the store has taken the first `stored` of
    /// its intervals and no more.
    pub fn outcome(&self, stored: usize) -> (r: Result<usize, IngestFailure>)
        ensures
            r == batch_outcome(self@.intervals.len() as int, self@.rejected, stored as int),
    {
        let planned: usize = self.intervals.len();
        if stored < planned {
            Err(IngestFailure { cause: FailureCause::Store, inserted: stored })
        } else {
            match self.rejected {
                Some(fault) => Err(
                    IngestFailure { cause: FailureCause::Row(fault), inserted: planned },
                ),
                None => Ok(planned),
            }
        }
    }

    /// Stores the batch's intervals one after the other until the store
    /// refuses one, and returns how many it took.
    pub fn store_into(&self, store: &mut IntervalStore) -> (stored: usize)
        requires
            old(store).exclusive(),
        ensures
            final(store).exclusive(),
            stored == first_refused_from(old(store)@, self@.intervals, 0),
            final(store)@ == old(store)@ + self@.intervals.take(stored as int),
    {
        let ghost before = store@;
        let ghost planned = self@.intervals;
        let n: usize = self.intervals.len();
        let mut i: usize = 0;
        assert(before + planned.take(0) =~= before);
        while i < n
            invariant
                i <= n,
                n == self.intervals.len(),
                planned == self@.intervals,
                planned.len() == n,
                before == old(store)@,
                store.exclusive(),
                store@ == before + planned.take(i as int),
                first_refused_from(before, planned, 0) == first_refused_from(
                    before,
                    planned,
                    i as int,
                ),
            decreases n - i,
        {
            assert(planned[i as int] == self.intervals[i as int]@);
            match store.insert(&self.intervals[i]) {
                Ok(_) => {
                    assert(before + planned.take(i + 1) =~= (before + planned.take(i as int)).push(
                        planned[i as int],
                    ));
                },
                Err(_) => {
                    return i;
                },
            }
            i = i + 1;
        }
        i
    }
}

/// Plans the batch that `records` make: reads each record as an observation
/// and builds its interval, up to the first record that is malformed.
pub fn plan_records(records: &Vec<Option<Vec<String>>>, region: &str, period: Span) -> (plan:
    BatchPlan)
    ensures
        plan@ == plan_of(record_texts(records@), period@, region@),
{
    let ghost texts = record_texts(records@);
    let n: usize = records.len();
    let mut intervals: Vec<PriceInterval> = Vec::new();
    let mut i: usize = 0;
    while i < n
        invariant
            i <= n,
            n == records.len(),
            texts == record_texts(records@),
            intervals.len() == i,
            forall|j: int|
                0 <= j < i ==> row_interval(texts[j], period@, region@) == Ok::<
                    Interval,
                    MalformedRow,
                >((#[trigger] intervals@[j])@),
            first_fault_from(texts, period@, region@, 0) == first_fault_from(
                texts,
                period@,
                region@,
                i as int,
            ),
        decreases n - i,
    {
        let verdict: Result<PriceInterval, MalformedRow> = match &records[i] {
            None => Err(MalformedRow::Unreadable),
            Some(fields) => match parse(fields) {
                Err(fault) => Err(fault),
                Ok(obs) => match build(obs, period, region) {
                    Some(interval) => Ok(interval),
                    None => Err(MalformedRow::Window),
                },
            },
        };
        match verdict {
            Ok(interval) => {
                assert(row_interval(texts[i as int], period@, region@) == Ok::<
                    Interval,
                    MalformedRow,
                >(interval@));
                intervals.push(interval);
            },
            Err(fault) => {
                assert(row_interval(texts[i as int], period@, region@) == Err::<
                    Interval,
                    MalformedRow,
                >(fault));
                let plan = BatchPlan { intervals, rejected: Some(fault) };
                assert(plan@.intervals =~= plan_of(texts, period@, region@).intervals);
                return plan;
            },
        }
        i = i + 1;
    }
    let plan = BatchPlan { intervals, rejected: None };
    assert(plan@.intervals =~= plan_of(texts, period@, region@).intervals);
    plan
}

/// Plans the batch that a payload makes: its records are those that the
/// reader finds after the header row, with `;` between fields.
pub fn plan(payload: &str, region: &str, period: Span) -> (plan: BatchPlan)
    ensures
        plan@ == plan_of(csv_records(payload@, DELIMITER, true), period@, region@),
{
    let records = read_records(payload, DELIMITER, true);
    plan_records(&records, region, period)
}

/// Ingests one payload into `store`: plans the batch, stores its intervals
/// in order until the store refuses one, and reports the count of what was
/// stored, or what stopped the batch. What was stored before a failure
/// stays stored.
pub fn ingest(store: &mut IntervalStore, payload: &str, region: &str, period: Span) -> (r: Result<
    usize,
    IngestFailure,
>)
    requires
        old(store).exclusive(),
    ensures
        final(store).exclusive(),
        ({
            let plan = plan_of(csv_records(payload@, DELIMITER, true), period@, region@);
            let stored = first_refused_from(old(store)@, plan.intervals, 0);
            &&& final(store)@ == old(store)@ + plan.intervals.take(stored)
            &&& r == batch_outcome(plan.intervals.len() as int, plan.rejected, stored)
        }),
        csv_records(payload@, DELIMITER, true).len() == 0 ==> r == Ok::<usize, IngestFailure>(0)
            && final(store)@ == old(store)@,
{
    proof {
        if csv_records(payload@, DELIMITER, true).len() == 0 {
            lemma_empty_batch(csv_records(payload@, DELIMITER, true), period@, region@, store@);
        }
    }
    let batch = plan(payload, region, period);
    let stored: usize = batch.store_into(store);
    batch.outcome(stored)
}

} // verus!
