//! Calendar instants and time spans, at second precision.
//!
//! An [`Instant`] counts whole seconds from 1970-01-01T00:00:00Z and stays
//! within the range of dates that `chrono::DateTime<Utc>` can hold, so every
//! instant of this library converts to a calendar date and back.

use vstd::prelude::*;

verus! {

/// Epoch seconds of the earliest calendar instant: midnight of January 1 of
/// the year -262143, the first day of `chrono::NaiveDate`.
pub const MIN_EPOCH_SECONDS: i64 = -8_334_601_228_800;

/// Epoch seconds of the latest calendar instant: the last second of
/// December 31 of the year 262142, the last day of `chrono::NaiveDate`.
pub const MAX_EPOCH_SECONDS: i64 = 8_210_266_876_799;

/// The longest span, in seconds: what `chrono::TimeDelta` can hold.
pub const MAX_SPAN_SECONDS: i64 = 9_223_372_036_854_775;

/// Whether `secs` seconds from the epoch is a calendar instant.
pub open spec fn is_instant(secs: int) -> bool {
    MIN_EPOCH_SECONDS <= secs <= MAX_EPOCH_SECONDS
}

/// Whether `secs` is the length of a span: positive and bounded.
pub open spec fn is_span(secs: int) -> bool {
    0 < secs <= MAX_SPAN_SECONDS
}

/// The text that RFC 3339 gives to the instant `secs` seconds from the epoch,
/// in UTC, as `chrono` writes it.
pub uninterp spec fn rfc3339_text(secs: int) -> Seq<char>;

/// Calls `chrono::DateTime::<Utc>::from_timestamp` and then `to_rfc3339` on
/// the date it returns. The contract claims that the text depends on the
/// second count alone. The count must be a calendar instant: for any other
/// count `from_timestamp` returns `None`.
#[verifier::external_body]
fn format_rfc3339(secs: i64) -> (text: String)
    requires
        is_instant(secs as int),
    ensures
        text@ == rfc3339_text(secs as int),
{
    chrono::DateTime::from_timestamp(secs, 0).unwrap().to_rfc3339()
}

/// A point in time, in whole seconds from the epoch, UTC.
#[derive(Clone, Copy, Debug, PartialEq, Eq, Hash)]
pub struct Instant {
    secs: i64,
}

impl View for Instant {
    type V = int;

    closed spec fn view(&self) -> int {
        self.secs as int
    }
}

impl Instant {
    #[verifier::type_invariant]
    spec fn in_calendar(self) -> bool {
        is_instant(self.secs as int)
    }

    /// The instant `secs` seconds from the epoch, if the calendar holds it.
    pub fn from_epoch_seconds(secs: i64) -> (r: Option<Instant>)
        ensures
            r is Some <==> is_instant(secs as int),
            r matches Some(t) ==> t@ == secs,
    {
        if MIN_EPOCH_SECONDS <= secs && secs <= MAX_EPOCH_SECONDS {
            Some(Instant { secs })
        } else {
            None
        }
    }

    /// Seconds from the epoch.
    pub fn epoch_seconds(&self) -> (secs: i64)
        ensures
            secs == self@,
            is_instant(secs as int),
    {
        proof {
            use_type_invariant(self);
        }
        self.secs
    }

    /// The instant `span` later, or `None` past the end of the calendar.
    pub fn checked_add(&self, span: Span) -> (r: Option<Instant>)
        ensures
            r is Some <==> is_instant(self@ + span@),
            r matches Some(t) ==> t@ == self@ + span@ && self@ < t@,
    {
        proof {
            use_type_invariant(self);
            use_type_invariant(span);
        }
        let sum: i64 = self.secs + span.secs;
        Instant::from_epoch_seconds(sum)
    }

    /// Whether `self` comes strictly before `other`.
    pub fn is_before(&self, other: &Instant) -> (b: bool)
        ensures
            b == (self@ < other@),
    {
        self.secs < other.secs
    }

    /// The instant as RFC 3339 text.
    pub fn to_rfc3339(&self) -> (text: String)
        ensures
            text@ == rfc3339_text(self@),
    {
        proof {
            use_type_invariant(self);
        }
        format_rfc3339(self.secs)
    }
}

/// A positive length of time, in whole seconds.
#[derive(Clone, Copy, Debug, PartialEq, Eq, Hash)]
pub struct Span {
    secs: i64,
}

impl View for Span {
    type V = int;

    closed spec fn view(&self) -> int {
        self.secs as int
    }
}

impl Span {
    #[verifier::type_invariant]
    spec fn bounded(self) -> bool {
        is_span(self.secs as int)
    }

    /// A span of `secs` seconds, if that is a span's length.
    pub fn seconds(secs: i64) -> (r: Option<Span>)
        ensures
            r is Some <==> is_span(secs as int),
            r matches Some(s) ==> s@ == secs,
    {
        if 0 < secs && secs <= MAX_SPAN_SECONDS {
            Some(Span { secs })
        } else {
            None
        }
    }

    /// A span of `hours` hours, if that is a span's length.
    pub fn hours(hours: i64) -> (r: Option<Span>)
        ensures
            r is Some <==> is_span(hours * 3600),
            r matches Some(s) ==> s@ == hours * 3600,
    {
        if 0 < hours && hours <= MAX_SPAN_SECONDS / 3600 {
            Span::seconds(hours * 3600)
        } else {
            None
        }
    }

    /// A span of `days` days, if that is a span's length.
    pub fn days(days: i64) -> (r: Option<Span>)
        ensures
            r is Some <==> is_span(days * 86_400),
            r matches Some(s) ==> s@ == days * 86_400,
    {
        if 0 < days && days <= MAX_SPAN_SECONDS / 86_400 {
            Span::seconds(days * 86_400)
        } else {
            None
        }
    }

    /// The length in seconds.
    pub fn as_seconds(&self) -> (secs: i64)
        ensures
            secs == self@,
            is_span(secs as int),
    {
        proof {
            use_type_invariant(self);
        }
        self.secs
    }
}

} // verus!
