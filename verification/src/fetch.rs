//! What to ask of the source for one window of time.
//!
//! The source takes a closed range of instants, so a window that starts at
//! `start` and lasts `duration` is asked for as `start ..= start + duration - 1 s`.

use crate::time::{is_instant, rfc3339_text, Instant, Span};
use vstd::prelude::*;

verus! {

/// The query parameters of one request, as text.
pub struct Query {
    pub start: Seq<char>,
    pub end: Seq<char>,
    pub fields: Seq<char>,
}

/// The query for the window of `duration` seconds from `start`: both ends in
/// RFC 3339, the last second of the window as the end, and the region as the
/// fields to return.
pub open spec fn query_for(region: Seq<char>, start: int, duration: int) -> Query {
    Query {
        start: rfc3339_text(start),
        end: rfc3339_text(start + duration - 1),
        fields: region,
    }
}

/// One window of time to fetch for a region.
#[derive(Debug, PartialEq, Eq)]
pub struct FetchWindow {
    pub region: String,
    pub start: Instant,
    pub duration: Span,
}

/// The query parameters of one request to the source.
#[derive(Debug, PartialEq, Eq)]
pub struct FetchRequest {
    pub start: String,
    pub end: String,
    pub fields: String,
}

impl View for FetchRequest {
    type V = Query;

    open spec fn view(&self) -> Query {
        Query { start: self.start@, end: self.end@, fields: self.fields@ }
    }
}

impl Clone for FetchWindow {
    fn clone(&self) -> (copy: FetchWindow)
        ensures
            copy == *self,
    {
        FetchWindow { region: self.region.clone(), start: self.start, duration: self.duration }
    }
}

impl Clone for FetchRequest {
    fn clone(&self) -> (copy: FetchRequest)
        ensures
            copy == *self,
    {
        FetchRequest {
            start: self.start.clone(),
            end: self.end.clone(),
            fields: self.fields.clone(),
        }
    }
}

impl FetchWindow {
    /// The request that fetches this window. There is none where the window
    /// would end past the calendar.
    pub fn request(&self) -> (r: Option<FetchRequest>)
        ensures
            match r {
                Some(request) => is_instant(self.start@ + self.duration@) && request@ == query_for(
                    self.region@,
                    self.start@,
                    self.duration@,
                ),
                None => !is_instant(self.start@ + self.duration@),
            },
    {
        let from: i64 = self.start.epoch_seconds();
        let length: i64 = self.duration.as_seconds();
        match self.start.checked_add(self.duration) {
            Some(_) => {
                let last = Instant::from_epoch_seconds(from + length - 1).unwrap();
                Some(
                    FetchRequest {
                        start: self.start.to_rfc3339(),
                        end: last.to_rfc3339(),
                        fields: self.region.clone(),
                    },
                )
            },
            None => None,
        }
    }
}

} // verus!
