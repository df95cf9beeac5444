//! The faults that end a batch or a run.

use vstd::prelude::*;

verus! {

/// A price field that is no decimal literal once its separator is rewritten.
#[derive(Clone, Copy, Debug, PartialEq, Eq, Structural)]
pub struct MalformedNumber;

/// Why a record of the payload is no price observation.
#[derive(Clone, Copy, Debug, PartialEq, Eq, Structural)]
pub enum MalformedRow {
    /// The reader could not frame the record, for one because it has
    /// another number of fields than the header row.
    Unreadable,
    /// The record does not have exactly three fields.
    FieldCount,
    /// The first field is no count of seconds that names a calendar instant.
    Timestamp,
    /// The price's validity window would end past the calendar.
    Window,
    /// The third field is no decimal number.
    Price,
}

/// The source could not be reached or answered with something unusable.
#[derive(Clone, Copy, Debug, PartialEq, Eq, Structural)]
pub struct SourceUnavailable;

/// The store holds an interval of the same region that overlaps the one
/// offered.
#[derive(Clone, Copy, Debug, PartialEq, Eq, Structural)]
pub struct ConstraintViolation;

/// What stopped a batch before its last row was stored.
#[derive(Clone, Copy, Debug, PartialEq, Eq, Structural)]
pub enum FailureCause {
    /// A record of the payload was malformed.
    Row(MalformedRow),
    /// The store refused an interval or could not be reached.
    Store,
}

/// A batch that did not complete: its cause, and how many rows of the batch
/// had been stored before it.
#[derive(Clone, Copy, Debug, PartialEq, Eq, Structural)]
pub struct IngestFailure {
    pub cause: FailureCause,
    pub inserted: usize,
}

} // verus!
