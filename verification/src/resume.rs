//! Resumption: what the store holds after any history of runs, failures and
//! restarts.
//!
//! The loop keeps no record of its progress but the store itself: a new run
//! starts from the watermark. This module models a world of a store, a loop
//! and a source whose data does not change, lets the loop run, fail and
//! restart in any order, and proves that the store always holds exactly the
//! first rows of the source, each once.

use crate::batch::{batch_outcome, first_refused_from};
use crate::cycle::{resume_point, transition, Event, Phase, Setup, Signal, StopReason};
use crate::error::IngestFailure;
use crate::interval::{interval_of, Interval};
use crate::row::Observation;
use crate::store::{pairwise_disjoint, watermark};
use crate::time::is_instant;
use vstd::prelude::*;

verus! {

/// Source data that the loop can follow: the rows come in order of time,
/// each at least one period after the one before it and none before the
/// configured start, and each price's validity window ends within the
/// calendar.
pub open spec fn steady(source: Seq<Observation>, setup: Setup) -> bool {
    &&& 0 < setup.period
    &&& 0 < setup.window
    &&& source.len() <= usize::MAX
    &&& forall|i: int|
        0 <= i < source.len() ==> setup.epoch_start <= (#[trigger] source[i]).at && is_instant(
            source[i].at + setup.period,
        )
    &&& forall|i: int, j: int|
        0 <= i < j < source.len() ==> (#[trigger] source[i]).at + setup.period <= (
        #[trigger] source[j]).at
}

/// Source data without a gap as long as a window: the first row comes less
/// than a window after the configured start, and each row at most a window
/// after the one before it.
pub open spec fn without_long_gap(source: Seq<Observation>, setup: Setup) -> bool {
    &&& source.len() > 0 ==> source[0].at < setup.epoch_start + setup.window
    &&& forall|i: int|
        0 < i < source.len() ==> (#[trigger] source[i]).at <= source[i - 1].at + setup.window
}

/// Whether exactly the first `k` rows of `source` come before `t`.
pub open spec fn splits(source: Seq<Observation>, t: int, k: int) -> bool {
    &&& 0 <= k <= source.len()
    &&& forall|i: int| 0 <= i < k ==> (#[trigger] source[i]).at < t
    &&& forall|i: int| k <= i < source.len() ==> (#[trigger] source[i]).at >= t
}

/// How many rows of `source` there are up to the last one before `t`.
pub open spec fn rows_before(source: Seq<Observation>, t: int) -> int
    decreases source.len(),
{
    if source.len() == 0 {
        0
    } else if source.last().at < t {
        source.len() as int
    } else {
        rows_before(source.drop_last(), t)
    }
}

/// What the source serves for the window of `window` seconds from `start`.
pub open spec fn window_rows(source: Seq<Observation>, start: int, window: int) -> Seq<
    Observation,
> {
    source.subrange(rows_before(source, start), rows_before(source, start + window))
}

/// The interval of each row.
pub open spec fn intervals_of(rows: Seq<Observation>, setup: Setup) -> Seq<Interval> {
    rows.map_values(|row: Observation| interval_of(row, setup.period, setup.region))
}

/// The intervals of the first `k` rows of the source.
pub open spec fn persisted(source: Seq<Observation>, setup: Setup, k: int) -> Seq<Interval> {
    intervals_of(source.take(k), setup)
}

/// A store and a loop.
pub struct World {
    pub store: Seq<Interval>,
    pub phase: Phase,
}

/// What happens next to a world.
pub enum Turn {
    /// The driver does what the loop asked for, and it works.
    Proceed,
    /// The process ends, by a crash or after a stop, and a new one starts.
    Restart,
    /// The driver cannot reach the source.
    FetchFails,
    /// The store takes so many intervals of the batch and then fails.
    StoreTakes(nat),
}

/// The world after one turn. In `Ingesting`, the batch is what the source
/// serves for the window at the cursor, and the store takes its intervals
/// in order until it refuses one or fails.
pub open spec fn world_step(setup: Setup, source: Seq<Observation>, world: World, turn: Turn) -> World {
    if turn is Restart {
        World { store: world.store, phase: Phase::Idle }
    } else {
        match world.phase {
            Phase::Idle => World {
                store: world.store,
                phase: transition(
                    setup,
                    world.phase,
                    Signal::Watermark(watermark(world.store, setup.region)),
                ).0,
            },
            Phase::Fetching { cursor } => World {
                store: world.store,
                phase: transition(
                    setup,
                    world.phase,
                    if turn is FetchFails {
                        Signal::FetchFailed
                    } else {
                        Signal::Fetched
                    },
                ).0,
            },
            Phase::Ingesting { cursor } => {
                let batch = intervals_of(window_rows(source, cursor, setup.window), setup);
                let accepted = first_refused_from(world.store, batch, 0);
                let taken = match turn {
                    Turn::StoreTakes(n) => if n < accepted {
                        n as int
                    } else {
                        accepted
                    },
                    _ => accepted,
                };
                World {
                    store: world.store + batch.take(taken),
                    phase: transition(
                        setup,
                        world.phase,
                        Event::Ingested(batch_outcome(batch.len() as int, None, taken))@,
                    ).0,
                }
            },
            Phase::Advancing { cursor } => World {
                store: world.store,
                phase: transition(setup, world.phase, Signal::Slept).0,
            },
            Phase::Stopped { reason } => world,
        }
    }
}

/// The world after a history of turns, from an empty store and an idle loop.
pub open spec fn run(setup: Setup, source: Seq<Observation>, turns: Seq<Turn>) -> World
    decreases turns.len(),
{
    if turns.len() == 0 {
        World { store: Seq::empty(), phase: Phase::Idle }
    } else {
        world_step(setup, source, run(setup, source, turns.drop_last()), turns.last())
    }
}

/// Whether the cursor stands right after what is stored.
pub open spec fn at_cursor(source: Seq<Observation>, setup: Setup, cursor: int, k: int) -> bool {
    &&& splits(source, cursor, k)
    &&& k == 0 ==> cursor == setup.epoch_start
}

/// Whether the world follows the source: the store holds exactly the first
/// rows of the source, the cursor of a running loop stands right after them,
/// and a loop that has caught up has stored every row, unless the source has
/// a gap as long as a window.
pub open spec fn follows(setup: Setup, source: Seq<Observation>, world: World) -> bool {
    let k = world.store.len() as int;
    &&& k <= source.len()
    &&& world.store == persisted(source, setup, k)
    &&& match world.phase {
        Phase::Idle => true,
        Phase::Fetching { cursor } => at_cursor(source, setup, cursor, k),
        Phase::Ingesting { cursor } => at_cursor(source, setup, cursor, k),
        Phase::Advancing { cursor } => at_cursor(source, setup, cursor, k),
        Phase::Stopped { reason } => reason == StopReason::CaughtUp && without_long_gap(
            source,
            setup,
        ) ==> k == source.len(),
    }
}

proof fn lemma_rows_before_splits(source: Seq<Observation>, setup: Setup, t: int)
    requires
        steady(source, setup),
    ensures
        splits(source, t, rows_before(source, t)),
    decreases source.len(),
{
    if source.len() > 0 {
        let last = source.len() - 1;
        if source[last].at < t {
            assert forall|i: int| 0 <= i < source.len() implies (#[trigger] source[i]).at < t by {
                if i < last {
                    assert(source[i].at + setup.period <= source[last].at);
                }
            }
        } else {
            let front = source.drop_last();
            assert(steady(front, setup)) by {
                assert forall|i: int| 0 <= i < front.len() implies setup.epoch_start <= (
                #[trigger] front[i]).at && is_instant(front[i].at + setup.period) by {
                    assert(front[i] == source[i]);
                }
                assert forall|i: int, j: int| 0 <= i < j < front.len() implies (
                #[trigger] front[i]).at + setup.period <= (#[trigger] front[j]).at by {
                    assert(front[i] == source[i] && front[j] == source[j]);
                }
            }
            lemma_rows_before_splits(front, setup, t);
            let r = rows_before(front, t);
            assert forall|i: int| 0 <= i < r implies (#[trigger] source[i]).at < t by {
                assert(front[i] == source[i]);
            }
            assert forall|i: int| r <= i < source.len() implies (#[trigger] source[i]).at >= t by {
                if i < last {
                    assert(front[i] == source[i]);
                }
            }
        }
    }
}

proof fn lemma_splits_once(source: Seq<Observation>, t: int, a: int, b: int)
    requires
        splits(source, t, a),
        splits(source, t, b),
    ensures
        a == b,
{
    if a < b {
        assert(source[a].at >= t);
        assert(source[a].at < t);
    } else if b < a {
        assert(source[b].at >= t);
        assert(source[b].at < t);
    }
}

proof fn lemma_persisted_rows(source: Seq<Observation>, setup: Setup, k: int)
    requires
        0 <= k <= source.len(),
    ensures
        persisted(source, setup, k).len() == k,
        forall|i: int|
            0 <= i < k ==> (#[trigger] persisted(source, setup, k)[i]) == interval_of(
                source[i],
                setup.period,
                setup.region,
            ),
{
    assert forall|i: int| 0 <= i < k implies (#[trigger] persisted(source, setup, k)[i])
        == interval_of(source[i], setup.period, setup.region) by {
        assert(source.take(k)[i] == source[i]);
    }
}

/// The intervals of a steady source do not overlap.
pub proof fn lemma_persisted_is_disjoint(source: Seq<Observation>, setup: Setup, k: int)
    requires
        steady(source, setup),
        0 <= k <= source.len(),
    ensures
        pairwise_disjoint(persisted(source, setup, k)),
{
    lemma_persisted_rows(source, setup, k);
    let rows = persisted(source, setup, k);
    assert forall|i: int, j: int| 0 <= i < j < rows.len() implies !(#[trigger] rows[i]).overlaps(
        #[trigger] rows[j],
    ) by {
        assert(source[i].at + setup.period <= source[j].at);
    }
}

/// The watermark of a store that holds the first `k` rows is the end of the
/// last of them.
pub proof fn lemma_watermark_of_persisted(source: Seq<Observation>, setup: Setup, k: int)
    requires
        steady(source, setup),
        0 <= k <= source.len(),
    ensures
        watermark(persisted(source, setup, k), setup.region) == if k == 0 {
            None
        } else {
            Some(source[k - 1].at + setup.period)
        },
    decreases k,
{
    lemma_persisted_rows(source, setup, k);
    if k > 0 {
        lemma_watermark_of_persisted(source, setup, k - 1);
        lemma_persisted_rows(source, setup, k - 1);
        let rows = persisted(source, setup, k);
        assert(rows.drop_last() =~= persisted(source, setup, k - 1));
        assert(rows.last() == interval_of(source[k - 1], setup.period, setup.region));
        if k > 1 {
            assert(source[k - 2].at + setup.period <= source[k - 1].at);
        }
    }
}

proof fn lemma_resume_point_splits(source: Seq<Observation>, setup: Setup, k: int)
    requires
        steady(source, setup),
        0 <= k <= source.len(),
    ensures
        at_cursor(
            source,
            setup,
            resume_point(watermark(persisted(source, setup, k), setup.region), setup.epoch_start),
            k,
        ),
{
    lemma_watermark_of_persisted(source, setup, k);
    if k > 0 {
        let t = source[k - 1].at + setup.period;
        assert forall|i: int| 0 <= i < k implies (#[trigger] source[i]).at < t by {
            if i < k - 1 {
                assert(source[i].at + setup.period <= source[k - 1].at);
            }
        }
        assert forall|i: int| k <= i < source.len() implies (#[trigger] source[i]).at >= t by {
            assert(source[k - 1].at + setup.period <= source[i].at);
        }
    }
}

proof fn lemma_disjoint_batch_is_taken(rows: Seq<Interval>, planned: Seq<Interval>, from: int)
    requires
        pairwise_disjoint(rows + planned),
        0 <= from <= planned.len(),
    ensures
        first_refused_from(rows, planned, from) == planned.len(),
    decreases planned.len() - from,
{
    if from < planned.len() {
        let all = rows + planned;
        let held = rows + planned.take(from);
        assert forall|i: int| 0 <= i < held.len() implies !(#[trigger] held[i]).overlaps(
            planned[from],
        ) by {
            assert(held[i] == all[i]);
            assert(planned[from] == all[rows.len() + from]);
            assert(!all[i].overlaps(all[rows.len() + from]));
        }
        lemma_disjoint_batch_is_taken(rows, planned, from + 1);
    }
}

/// One turn keeps the world following the source.
pub proof fn lemma_turn_keeps_following(
    setup: Setup,
    source: Seq<Observation>,
    world: World,
    turn: Turn,
)
    requires
        steady(source, setup),
        follows(setup, source, world),
    ensures
        follows(setup, source, world_step(setup, source, world, turn)),
{
    let k = world.store.len() as int;
    let next = world_step(setup, source, world, turn);
    if turn is Restart {
    } else {
        match world.phase {
            Phase::Idle => {
                lemma_resume_point_splits(source, setup, k);
            },
            Phase::Fetching { cursor } => {},
            Phase::Advancing { cursor } => {},
            Phase::Stopped { reason } => {},
            Phase::Ingesting { cursor } => {
                let lo = rows_before(source, cursor);
                let hi = rows_before(source, cursor + setup.window);
                lemma_rows_before_splits(source, setup, cursor);
                lemma_rows_before_splits(source, setup, cursor + setup.window);
                lemma_splits_once(source, cursor, k, lo);
                if hi < k {
                    assert(source[hi].at >= cursor + setup.window);
                    assert(source[hi].at < cursor);
                }
                let rows = source.subrange(k, hi);
                let batch = intervals_of(rows, setup);
                let m = hi - k;
                lemma_persisted_rows(source, setup, k);
                lemma_persisted_rows(source, setup, hi);
                assert(world.store + batch =~= persisted(source, setup, hi)) by {
                    assert forall|i: int| 0 <= i < hi implies (#[trigger] (world.store + batch)[i])
                        == persisted(source, setup, hi)[i] by {
                        if i >= k {
                            assert(batch[i - k] == interval_of(
                                rows[i - k],
                                setup.period,
                                setup.region,
                            ));
                            assert(rows[i - k] == source[i]);
                        }
                    }
                }
                lemma_persisted_is_disjoint(source, setup, hi);
                lemma_disjoint_batch_is_taken(world.store, batch, 0);
                let taken = next.store.len() - k;
                assert(0 <= taken <= m);
                lemma_persisted_rows(source, setup, k + taken);
                assert(next.store =~= persisted(source, setup, k + taken)) by {
                    assert forall|i: int| 0 <= i < k + taken implies (#[trigger] next.store[i])
                        == persisted(source, setup, k + taken)[i] by {
                        if i >= k {
                            assert(batch.take(taken)[i - k] == batch[i - k]);
                            assert(batch[i - k] == interval_of(
                                rows[i - k],
                                setup.period,
                                setup.region,
                            ));
                            assert(rows[i - k] == source[i]);
                        }
                    }
                }
                if taken == m && m == 0 {
                    if without_long_gap(source, setup) && k < source.len() {
                        assert(source[k].at >= cursor + setup.window);
                        if k > 0 {
                            assert(source[k - 1].at < cursor);
                            assert(source[k].at <= source[k - 1].at + setup.window);
                        }
                    }
                }
            },
        }
    }
}

/// Whatever the history of runs, failures and restarts, the store holds
/// exactly the first rows of the source, each once and in order: nothing
/// twice, and no gap before the last stored row.
pub proof fn lemma_resumption_is_idempotent(
    setup: Setup,
    source: Seq<Observation>,
    turns: Seq<Turn>,
)
    requires
        steady(source, setup),
    ensures
        follows(setup, source, run(setup, source, turns)),
        run(setup, source, turns).store == persisted(
            source,
            setup,
            run(setup, source, turns).store.len() as int,
        ),
    decreases turns.len(),
{
    if turns.len() == 0 {
        assert(run(setup, source, turns).store =~= persisted(source, setup, 0));
    } else {
        lemma_resumption_is_idempotent(setup, source, turns.drop_last());
        lemma_turn_keeps_following(
            setup,
            source,
            run(setup, source, turns.drop_last()),
            turns.last(),
        );
    }
}

/// A history that ends with a loop that has caught up has stored every row
/// of the source, so any two such histories end with the same store: one
/// with failures and restarts in it ends like one without.
pub proof fn lemma_interrupted_run_ends_like_uninterrupted(
    setup: Setup,
    source: Seq<Observation>,
    interrupted: Seq<Turn>,
    uninterrupted: Seq<Turn>,
)
    requires
        steady(source, setup),
        without_long_gap(source, setup),
        run(setup, source, interrupted).phase == (Phase::Stopped { reason: StopReason::CaughtUp }),
        run(setup, source, uninterrupted).phase == (Phase::Stopped {
            reason: StopReason::CaughtUp,
        }),
    ensures
        run(setup, source, interrupted).store == intervals_of(source, setup),
        run(setup, source, interrupted).store == run(setup, source, uninterrupted).store,
{
    lemma_resumption_is_idempotent(setup, source, interrupted);
    lemma_resumption_is_idempotent(setup, source, uninterrupted);
    assert(source.take(source.len() as int) =~= source);
}

/// Whatever the history, no two stored intervals overlap, and the store
/// never has to refuse an interval of a batch.
pub proof fn lemma_stored_intervals_never_overlap(
    setup: Setup,
    source: Seq<Observation>,
    turns: Seq<Turn>,
)
    requires
        steady(source, setup),
    ensures
        pairwise_disjoint(run(setup, source, turns).store),
{
    lemma_resumption_is_idempotent(setup, source, turns);
    lemma_persisted_is_disjoint(source, setup, run(setup, source, turns).store.len() as int);
}

/// Where each row of the source comes exactly one period after the one
/// before it, the stored intervals leave no gap: each starts where the one
/// before it ends.
pub proof fn lemma_contiguous_source_is_stored_without_gaps(
    setup: Setup,
    source: Seq<Observation>,
    turns: Seq<Turn>,
)
    requires
        steady(source, setup),
        forall|i: int|
            0 < i < source.len() ==> (#[trigger] source[i]).at == source[i - 1].at + setup.period,
    ensures
        ({
            let store = run(setup, source, turns).store;
            forall|i: int| 0 < i < store.len() ==> (#[trigger] store[i]).start == store[i - 1].end
        }),
{
    lemma_resumption_is_idempotent(setup, source, turns);
    let store = run(setup, source, turns).store;
    lemma_persisted_rows(source, setup, store.len() as int);
    assert forall|i: int| 0 < i < store.len() implies (#[trigger] store[i]).start == store[i
        - 1].end by {
        assert(source[i].at == source[i - 1].at + setup.period);
    }
}

/// An empty batch stops the loop where it stands: the store and with it the
/// watermark stay as they are, and the loop has caught up.
pub proof fn lemma_empty_batch_stops_the_loop(setup: Setup, rows: Seq<Interval>, cursor: int)
    ensures
        ({
            let none = Seq::<Interval>::empty();
            let taken = first_refused_from(rows, none, 0);
            let report = batch_outcome(0, None, taken);
            &&& rows + none.take(taken) == rows
            &&& watermark(rows + none.take(taken), setup.region) == watermark(rows, setup.region)
            &&& report == Ok::<usize, IngestFailure>(0)
            &&& transition(setup, Phase::Ingesting { cursor }, Event::Ingested(report)@).0 == (
            Phase::Stopped { reason: StopReason::CaughtUp })
        }),
{
    let none = Seq::<Interval>::empty();
    assert(rows + none.take(0) =~= rows);
}

} // verus!
