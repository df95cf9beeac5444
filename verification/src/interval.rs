//! Price intervals: the unit of stored data.
//!
//! A sample taken at `t` holds for the half-open range `[t, t + period)`.

use crate::decimal::{DecimalValue, Price};
use crate::row::{Observation, PriceObservation};
use crate::time::{is_instant, Instant, Span};
use vstd::prelude::*;

verus! {

/// A price that holds from `start` up to, and not at, `end`, as plain values.
pub struct Interval {
    pub start: int,
    pub end: int,
    pub region: Seq<char>,
    pub price: DecimalValue,
}

impl Interval {
    /// Whether two intervals of one region share an instant.
    pub open spec fn overlaps(self, other: Interval) -> bool {
        self.region == other.region && self.start < other.end && other.start < self.end
    }
}

/// The interval that an observation stands for: it holds for one period from
/// the time of the sample.
pub open spec fn interval_of(obs: Observation, period: int, region: Seq<char>) -> Interval {
    Interval { start: obs.at, end: obs.at + period, region, price: obs.price }
}

/// A price that holds from `start` up to, and not at, `end`, in one region.
#[derive(Debug, PartialEq, Eq)]
pub struct PriceInterval {
    start: Instant,
    end: Instant,
    region: String,
    price: Price,
}

impl View for PriceInterval {
    type V = Interval;

    closed spec fn view(&self) -> Interval {
        Interval {
            start: self.start@,
            end: self.end@,
            region: self.region@,
            price: self.price@,
        }
    }
}

impl PriceInterval {
    #[verifier::type_invariant]
    spec fn ends_after_start(self) -> bool {
        self.start@ < self.end@
    }

    /// The first instant of the interval.
    pub fn start(&self) -> (t: Instant)
        ensures
            t@ == self@.start,
            self@.start < self@.end,
    {
        proof {
            use_type_invariant(self);
        }
        self.start
    }

    /// The first instant after the interval.
    pub fn end(&self) -> (t: Instant)
        ensures
            t@ == self@.end,
            self@.start < self@.end,
    {
        proof {
            use_type_invariant(self);
        }
        self.end
    }

    /// The region that the price is for.
    pub fn region(&self) -> (region: &String)
        ensures
            region@ == self@.region,
    {
        &self.region
    }

    /// The price that holds over the interval.
    pub fn price(&self) -> (price: Price)
        ensures
            price@ == self@.price,
    {
        self.price
    }

    /// Whether the two intervals are of one region and share an instant.
    pub fn overlaps(&self, other: &PriceInterval) -> (b: bool)
        ensures
            b == self@.overlaps(other@),
    {
        self.region == other.region && self.start.is_before(&other.end) && other.start.is_before(
            &self.end,
        )
    }
}

impl Clone for PriceInterval {
    fn clone(&self) -> (copy: PriceInterval)
        ensures
            copy@ == self@,
    {
        proof {
            use_type_invariant(self);
        }
        PriceInterval {
            start: self.start,
            end: self.end,
            region: self.region.clone(),
            price: self.price,
        }
    }
}

/// Builds the interval over which an observed price holds: from the time of
/// the sample, for one period. There is none where the interval would end
/// past the calendar.
pub fn build(obs: PriceObservation, period: Span, region: &str) -> (r: Option<PriceInterval>)
    ensures
        match r {
            Some(interval) => is_instant(obs@.at + period@) && interval@ == interval_of(
                obs@,
                period@,
                region@,
            ),
            None => !is_instant(obs@.at + period@),
        },
{
    match obs.timestamp.checked_add(period) {
        Some(end) => Some(
            PriceInterval { start: obs.timestamp, end, region: region.to_owned(), price: obs.price },
        ),
        None => None,
    }
}

} // verus!
