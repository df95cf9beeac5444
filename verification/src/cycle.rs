//! The ingestion loop as a state machine.
//!
//! The loop reads the watermark, fetches the window that starts there,
//! ingests the payload, and moves on by one window after a batch that stored
//! something. It stops on the first failure and on the first empty batch.
//! The machine decides; whoever drives it reads the store, talks to the
//! source and sleeps, and reports each result back as an event.

use crate::error::{IngestFailure, SourceUnavailable};
use crate::fetch::{query_for, FetchRequest, FetchWindow, Query};
use crate::time::{is_instant, Instant, Span};
use vstd::prelude::*;

verus! {

/// Where the reference deployment starts when nothing is stored yet:
/// 2018-01-01T00:00:00Z.
pub const REFERENCE_EPOCH_START: i64 = 1_514_764_800;

/// How long a price holds in the reference deployment: one hour.
pub const REFERENCE_PERIOD_HOURS: i64 = 1;

/// How much the reference deployment fetches at once: two days.
pub const REFERENCE_WINDOW_DAYS: i64 = 2;

/// How long the reference deployment waits between two fetches.
pub const REFERENCE_DELAY_MILLIS: u64 = 500;

/// The settings of a loop, as plain values.
pub struct Setup {
    pub region: Seq<char>,
    pub epoch_start: int,
    pub period: int,
    pub window: int,
    pub delay_millis: u64,
}

/// The settings of a loop.
#[derive(Debug, PartialEq, Eq)]
pub struct Config {
    /// The region whose prices are ingested.
    pub region: String,
    /// Where to start when nothing is stored yet for the region.
    pub epoch_start: Instant,
    /// How long each price holds.
    pub period: Span,
    /// How much time one fetch covers.
    pub window: Span,
    /// How long to wait between two fetches, in milliseconds.
    pub delay_millis: u64,
}

impl View for Config {
    type V = Setup;

    open spec fn view(&self) -> Setup {
        Setup {
            region: self.region@,
            epoch_start: self.epoch_start@,
            period: self.period@,
            window: self.window@,
            delay_millis: self.delay_millis,
        }
    }
}

impl Clone for Config {
    fn clone(&self) -> (copy: Config)
        ensures
            copy == *self,
    {
        Config {
            region: self.region.clone(),
            epoch_start: self.epoch_start,
            period: self.period,
            window: self.window,
            delay_millis: self.delay_millis,
        }
    }
}

impl Config {
    /// The settings of the reference deployment: region `ee`, hourly
    /// prices, two days per fetch, half a second between fetches, starting
    /// at the beginning of 2018.
    pub fn reference() -> (config: Config)
        ensures
            config@ == (Setup {
                region: "ee"@,
                epoch_start: REFERENCE_EPOCH_START as int,
                period: 3600,
                window: 172_800,
                delay_millis: REFERENCE_DELAY_MILLIS,
            }),
    {
        let epoch_start = Instant::from_epoch_seconds(REFERENCE_EPOCH_START).unwrap();
        let period = Span::hours(REFERENCE_PERIOD_HOURS).unwrap();
        let window = Span::days(REFERENCE_WINDOW_DAYS).unwrap();
        Config {
            region: "ee".to_owned(),
            epoch_start,
            period,
            window,
            delay_millis: REFERENCE_DELAY_MILLIS,
        }
    }
}

/// Why a loop stopped.
#[derive(Clone, Copy, Debug, PartialEq, Eq, Structural)]
pub enum StopReason {
    /// A batch stored nothing: the source has no more data.
    CaughtUp,
    /// The source could not be fetched from.
    SourceUnavailable,
    /// A batch failed.
    IngestFailed(IngestFailure),
    /// The next window would end past the calendar.
    EndOfCalendar,
    /// An event arrived that the state was not waiting for.
    OutOfTurn,
}

/// The state of a loop, as plain values.
pub enum Phase {
    Idle,
    Fetching { cursor: int },
    Ingesting { cursor: int },
    Advancing { cursor: int },
    Stopped { reason: StopReason },
}

/// What the driver reports, as plain values.
pub enum Signal {
    Watermark(Option<int>),
    Fetched,
    FetchFailed,
    Ingested(Result<int, IngestFailure>),
    Slept,
}

/// What the driver is to do next, as plain values.
pub enum Command {
    ReadWatermark,
    Fetch(Query),
    Ingest,
    Sleep { millis: u64 },
    Halt,
}

/// The state of a loop. `cursor` is the start of the window at hand.
#[derive(Clone, Copy, Debug, PartialEq, Eq)]
pub enum LoopState {
    /// Waiting for the watermark.
    Idle,
    /// Waiting for the payload of the window that starts at `cursor`.
    Fetching { cursor: Instant },
    /// Waiting for the batch of the window that starts at `cursor`.
    Ingesting { cursor: Instant },
    /// Waiting out the delay before the window that starts at `cursor`.
    Advancing { cursor: Instant },
    /// Done, for good.
    Stopped { reason: StopReason },
}

impl View for LoopState {
    type V = Phase;

    open spec fn view(&self) -> Phase {
        match *self {
            LoopState::Idle => Phase::Idle,
            LoopState::Fetching { cursor } => Phase::Fetching { cursor: cursor@ },
            LoopState::Ingesting { cursor } => Phase::Ingesting { cursor: cursor@ },
            LoopState::Advancing { cursor } => Phase::Advancing { cursor: cursor@ },
            LoopState::Stopped { reason } => Phase::Stopped { reason },
        }
    }
}

/// What the driver reports to the loop.
#[derive(Clone, Copy, Debug, PartialEq, Eq)]
pub enum Event {
    /// The watermark of the region, as the store has it now.
    Watermark(Option<Instant>),
    /// The payload of the requested window has arrived.
    Fetched,
    /// The request failed.
    FetchFailed(SourceUnavailable),
    /// The batch has ended, with the count of rows stored or with a failure.
    Ingested(Result<usize, IngestFailure>),
    /// The delay has passed.
    Slept,
}

impl View for Event {
    type V = Signal;

    open spec fn view(&self) -> Signal {
        match *self {
            Event::Watermark(Some(t)) => Signal::Watermark(Some(t@)),
            Event::Watermark(None) => Signal::Watermark(None),
            Event::Fetched => Signal::Fetched,
            Event::FetchFailed(_) => Signal::FetchFailed,
            Event::Ingested(Ok(n)) => Signal::Ingested(Ok(n as int)),
            Event::Ingested(Err(failure)) => Signal::Ingested(Err(failure)),
            Event::Slept => Signal::Slept,
        }
    }
}

/// What the loop asks of the driver.
#[derive(Debug, PartialEq, Eq)]
pub enum Action {
    /// Read the region's watermark from the store; report `Watermark`.
    ReadWatermark,
    /// Send the request to the source; report `Fetched` or `FetchFailed`.
    Fetch(FetchRequest),
    /// Ingest the payload that was fetched; report `Ingested`.
    Ingest,
    /// Wait for so many milliseconds; report `Slept`.
    Sleep { millis: u64 },
    /// Report the stop and end.
    Halt,
}

impl Clone for Action {
    fn clone(&self) -> (copy: Action)
        ensures
            copy == *self,
    {
        match self {
            Action::ReadWatermark => Action::ReadWatermark,
            Action::Fetch(request) => Action::Fetch(request.clone()),
            Action::Ingest => Action::Ingest,
            Action::Sleep { millis } => Action::Sleep { millis: *millis },
            Action::Halt => Action::Halt,
        }
    }
}

impl View for Action {
    type V = Command;

    open spec fn view(&self) -> Command {
        match *self {
            Action::ReadWatermark => Command::ReadWatermark,
            Action::Fetch(request) => Command::Fetch(request@),
            Action::Ingest => Command::Ingest,
            Action::Sleep { millis } => Command::Sleep { millis },
            Action::Halt => Command::Halt,
        }
    }
}

/// Where to start fetching: at the watermark, or at the configured start
/// where nothing is stored yet.
pub open spec fn resume_point(watermark: Option<int>, epoch_start: int) -> int {
    match watermark {
        Some(t) => t,
        None => epoch_start,
    }
}

/// Entering `Fetching` for the window that starts at `cursor`; the loop
/// stops instead where that window would end past the calendar.
pub open spec fn begin_fetch(setup: Setup, cursor: int) -> (Phase, Command) {
    if is_instant(cursor + setup.window) {
        (Phase::Fetching { cursor }, Command::Fetch(query_for(setup.region, cursor, setup.window)))
    } else {
        (Phase::Stopped { reason: StopReason::EndOfCalendar }, Command::Halt)
    }
}

/// The loop's transition: the state that follows `phase` on `signal`, and
/// what the driver is to do next.
pub open spec fn transition(setup: Setup, phase: Phase, signal: Signal) -> (Phase, Command) {
    match (phase, signal) {
        (Phase::Idle, Signal::Watermark(watermark)) => begin_fetch(
            setup,
            resume_point(watermark, setup.epoch_start),
        ),
        (Phase::Fetching { cursor }, Signal::Fetched) => (
            Phase::Ingesting { cursor },
            Command::Ingest,
        ),
        (Phase::Fetching { cursor }, Signal::FetchFailed) => (
            Phase::Stopped { reason: StopReason::SourceUnavailable },
            Command::Halt,
        ),
        (Phase::Ingesting { cursor }, Signal::Ingested(Ok(count))) => if count == 0 {
            (Phase::Stopped { reason: StopReason::CaughtUp }, Command::Halt)
        } else if is_instant(cursor + setup.window) {
            (
                Phase::Advancing { cursor: cursor + setup.window },
                Command::Sleep { millis: setup.delay_millis },
            )
        } else {
            (Phase::Stopped { reason: StopReason::EndOfCalendar }, Command::Halt)
        },
        (Phase::Ingesting { cursor }, Signal::Ingested(Err(failure))) => (
            Phase::Stopped { reason: StopReason::IngestFailed(failure) },
            Command::Halt,
        ),
        (Phase::Advancing { cursor }, Signal::Slept) => begin_fetch(setup, cursor),
        (Phase::Stopped { reason }, _) => (Phase::Stopped { reason }, Command::Halt),
        _ => (Phase::Stopped { reason: StopReason::OutOfTurn }, Command::Halt),
    }
}

/// The state in which a loop starts, and the first thing it asks for.
pub fn start() -> (first: (LoopState, Action))
    ensures
        first.0@ == Phase::Idle,
        first.1@ == Command::ReadWatermark,
{
    (LoopState::Idle, Action::ReadWatermark)
}

fn enter_fetching(config: &Config, cursor: Instant) -> (next: (LoopState, Action))
    ensures
        (next.0@, next.1@) == begin_fetch(config@, cursor@),
{
    let window = FetchWindow {
        region: config.region.clone(),
        start: cursor,
        duration: config.window,
    };
    match window.request() {
        Some(request) => (LoopState::Fetching { cursor }, Action::Fetch(request)),
        None => (LoopState::Stopped { reason: StopReason::EndOfCalendar }, Action::Halt),
    }
}

/// Takes one step of the loop: from `state`, on `event`, to the next state
/// and the next thing to do.
pub fn step(config: &Config, state: LoopState, event: Event) -> (next: (LoopState, Action))
    ensures
        (next.0@, next.1@) == transition(config@, state@, event@),
{
    match state {
        LoopState::Idle => match event {
            Event::Watermark(Some(t)) => enter_fetching(config, t),
            Event::Watermark(None) => enter_fetching(config, config.epoch_start),
            _ => (LoopState::Stopped { reason: StopReason::OutOfTurn }, Action::Halt),
        },
        LoopState::Fetching { cursor } => match event {
            Event::Fetched => (LoopState::Ingesting { cursor }, Action::Ingest),
            Event::FetchFailed(_) => (
                LoopState::Stopped { reason: StopReason::SourceUnavailable },
                Action::Halt,
            ),
            _ => (LoopState::Stopped { reason: StopReason::OutOfTurn }, Action::Halt),
        },
        LoopState::Ingesting { cursor } => match event {
            Event::Ingested(Ok(count)) => {
                if count == 0 {
                    (LoopState::Stopped { reason: StopReason::CaughtUp }, Action::Halt)
                } else {
                    match cursor.checked_add(config.window) {
                        Some(next) => (
                            LoopState::Advancing { cursor: next },
                            Action::Sleep { millis: config.delay_millis },
                        ),
                        None => (
                            LoopState::Stopped { reason: StopReason::EndOfCalendar },
                            Action::Halt,
                        ),
                    }
                }
            },
            Event::Ingested(Err(failure)) => (
                LoopState::Stopped { reason: StopReason::IngestFailed(failure) },
                Action::Halt,
            ),
            _ => (LoopState::Stopped { reason: StopReason::OutOfTurn }, Action::Halt),
        },
        LoopState::Advancing { cursor } => match event {
            Event::Slept => enter_fetching(config, cursor),
            _ => (LoopState::Stopped { reason: StopReason::OutOfTurn }, Action::Halt),
        },
        LoopState::Stopped { reason } => (LoopState::Stopped { reason }, Action::Halt),
    }
}

} // verus!
