//! Incremental ingestion of hourly electricity prices.
//!
//! A remote source publishes prices as delimited text, one row per sample.
//! This library turns such payloads into half-open time intervals, decides
//! where the next request starts from what has already been stored, and
//! drives the fetch and ingest cycle as a state machine whose I/O is left to
//! the caller.

pub mod batch;
pub mod cycle;
pub mod decimal;
pub mod error;
pub mod fetch;
pub mod interval;
pub mod resume;
pub mod row;
pub mod store;
pub mod time;
