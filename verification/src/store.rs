//! A store of price intervals held in memory.
//!
//! It keeps the two promises that the ingestion logic asks of any store: it
//! refuses an interval that overlaps one it already holds for the same
//! region, and it reports, per region, the latest end among what it holds.

use crate::error::ConstraintViolation;
use crate::interval::{Interval, PriceInterval};
use crate::time::Instant;
use vstd::prelude::*;

verus! {

/// Whether no two of `rows` overlap.
pub open spec fn pairwise_disjoint(rows: Seq<Interval>) -> bool {
    forall|i: int, j: int| 0 <= i < j < rows.len() ==> !(#[trigger] rows[i]).overlaps(#[trigger] rows[j])
}

/// Whether `interval` overlaps one of `rows`.
pub open spec fn conflicts(rows: Seq<Interval>, interval: Interval) -> bool {
    exists|i: int| 0 <= i < rows.len() && (#[trigger] rows[i]).overlaps(interval)
}

/// The watermark of a region: the latest end among its intervals, or `None`
/// where `rows` holds none for it.
pub open spec fn watermark(rows: Seq<Interval>, region: Seq<char>) -> Option<int>
    decreases rows.len(),
{
    if rows.len() == 0 {
        None
    } else {
        let earlier = watermark(rows.drop_last(), region);
        let last = rows.last();
        if last.region != region {
            earlier
        } else if earlier is Some && earlier->0 >= last.end {
            earlier
        } else {
            Some(last.end)
        }
    }
}

/// The watermark is absent exactly when the region has no interval;
/// otherwise it is the end of one of the region's intervals and no interval
/// of the region ends later.
pub proof fn lemma_watermark_is_latest_end(rows: Seq<Interval>, region: Seq<char>)
    ensures
        watermark(rows, region) is None <==> forall|i: int|
            0 <= i < rows.len() ==> (#[trigger] rows[i]).region != region,
        watermark(rows, region) matches Some(w) ==> {
            &&& exists|i: int|
                0 <= i < rows.len() && (#[trigger] rows[i]).region == region && rows[i].end == w
            &&& forall|i: int|
                0 <= i < rows.len() && (#[trigger] rows[i]).region == region ==> rows[i].end <= w
        },
    decreases rows.len(),
{
    if rows.len() > 0 {
        let front = rows.drop_last();
        lemma_watermark_is_latest_end(front, region);
        assert forall|i: int| 0 <= i < front.len() implies front[i] == rows[i] by {}
        let last = rows.len() - 1;
        match watermark(rows, region) {
            Some(w) => {
                if rows[last].region == region && rows[last].end == w {
                    assert(rows[last].region == region && rows[last].end == w);
                } else {
                    let i = choose|i: int|
                        0 <= i < front.len() && (#[trigger] front[i]).region == region
                            && front[i].end == w;
                    assert(rows[i].region == region && rows[i].end == w);
                }
                assert forall|i: int|
                    0 <= i < rows.len() && (#[trigger] rows[i]).region == region implies rows[i].end
                    <= w by {
                    if i < last {
                        assert(front[i].region == region);
                    }
                }
            },
            None => {
                assert forall|i: int| 0 <= i < rows.len() implies (#[trigger] rows[i]).region
                    != region by {
                    if i < last {
                        assert(front[i].region != region);
                    }
                }
            },
        }
        if watermark(rows, region) is Some {
            if rows[last].region != region {
                let i = choose|i: int|
                    0 <= i < front.len() && (#[trigger] front[i]).region == region;
                assert(rows[i].region == region);
            } else {
                assert(rows[last].region == region);
            }
        }
    }
}

/// The intervals stored so far, in the order in which they were inserted.
#[derive(Debug)]
pub struct IntervalStore {
    rows: Vec<PriceInterval>,
}

impl View for IntervalStore {
    type V = Seq<Interval>;

    closed spec fn view(&self) -> Seq<Interval> {
        self.rows@.map_values(|row: PriceInterval| row@)
    }
}

impl IntervalStore {
    /// What every store keeps: no two of its intervals overlap.
    pub open spec fn exclusive(&self) -> bool {
        pairwise_disjoint(self@)
    }

    /// A store that holds nothing.
    pub fn new() -> (store: IntervalStore)
        ensures
            store@ == Seq::<Interval>::empty(),
            store.exclusive(),
    {
        let store = IntervalStore { rows: Vec::new() };
        assert(store@ =~= Seq::<Interval>::empty());
        store
    }

    /// How many intervals the store holds.
    pub fn len(&self) -> (n: usize)
        ensures
            n == self@.len(),
    {
        self.rows.len()
    }

    /// The `i`-th interval in order of insertion, if there are that many.
    pub fn get(&self, i: usize) -> (r: Option<&PriceInterval>)
        ensures
            r is Some <==> i < self@.len(),
            r matches Some(row) ==> row@ == self@[i as int],
    {
        if i < self.rows.len() {
            Some(&self.rows[i])
        } else {
            None
        }
    }

    /// Stores `interval`, unless it overlaps an interval that the store
    /// holds for the same region: then the store stays as it is.
    pub fn insert(&mut self, interval: &PriceInterval) -> (r: Result<(), ConstraintViolation>)
        requires
            old(self).exclusive(),
        ensures
            final(self).exclusive(),
            match r {
                Ok(_) => !conflicts(old(self)@, interval@) && final(self)@ == old(self)@.push(
                    interval@,
                ),
                Err(_) => conflicts(old(self)@, interval@) && final(self)@ == old(self)@,
            },
    {
        let ghost before = self@;
        let n: usize = self.rows.len();
        let mut i: usize = 0;
        while i < n
            invariant
                i <= n,
                n == self.rows.len(),
                self@ == before,
                before.len() == n,
                pairwise_disjoint(before),
                forall|j: int| 0 <= j < i ==> !(#[trigger] before[j]).overlaps(interval@),
            decreases n - i,
        {
            if self.rows[i].overlaps(interval) {
                assert(before[i as int].overlaps(interval@));
                return Err(ConstraintViolation);
            }
            i = i + 1;
        }
        self.rows.push(interval.clone());
        proof {
            assert(self@ =~= before.push(interval@));
            assert forall|a: int, b: int| 0 <= a < b < self@.len() implies !(#[trigger] self@[a]).overlaps(
                #[trigger] self@[b],
            ) by {
                if b < n {
                    assert(!before[a].overlaps(before[b]));
                } else {
                    assert(!before[a].overlaps(interval@));
                }
            }
        }
        Ok(())
    }

    /// The watermark of `region`: the latest end among the region's
    /// intervals, or `None` where the store holds none for it.
    pub fn latest(&self, region: &str) -> (r: Option<Instant>)
        ensures
            match r {
                Some(t) => watermark(self@, region@) == Some(t@),
                None => watermark(self@, region@) is None,
            },
    {
        let wanted: String = region.to_owned();
        let n: usize = self.rows.len();
        let mut best: Option<Instant> = None;
        let mut i: usize = 0;
        assert(self@.take(0) =~= Seq::<Interval>::empty());
        while i < n
            invariant
                i <= n,
                n == self.rows.len(),
                n == self@.len(),
                wanted@ == region@,
                match best {
                    Some(t) => watermark(self@.take(i as int), region@) == Some(t@),
                    None => watermark(self@.take(i as int), region@) is None,
                },
            decreases n - i,
        {
            let row = &self.rows[i];
            proof {
                assert(self@.take(i + 1).drop_last() =~= self@.take(i as int));
                assert(self@.take(i + 1).last() == row@);
            }
            if *row.region() == wanted {
                let end = row.end();
                best = match best {
                    Some(t) => if end.is_before(&t) || end.epoch_seconds() == t.epoch_seconds() {
                        Some(t)
                    } else {
                        Some(end)
                    },
                    None => Some(end),
                };
            }
            i = i + 1;
        }
        assert(self@.take(n as int) =~= self@);
        best
    }
}

} // verus!
