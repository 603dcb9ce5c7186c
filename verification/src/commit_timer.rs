//! Measures the two phases of a commit: handing it over, and waiting for it.
//!
//! Each reading of the clock is tied to what was there when it was taken: the updater before the
//! commit, the commit that was handed over, the updater after the commit. A phase is so measured
//! from its beginning to its end, and not one in place of the other.
use crate::segment_meta::Opstamp;
use crate::segment_updater::{ScheduledCommit, SegmentUpdater, UpdaterView};
use std::time::{Duration, Instant};
use vstd::prelude::*;

verus! {

/// `started` was read off the clock while the updater was in the state `before`.
pub closed spec fn begun_at(before: UpdaterView, started: Instant) -> bool {
    call_ensures(Instant::now, (), started)
}

/// `schedule` had elapsed since `started` when the commit through `opstamp` had been handed over.
pub closed spec fn handed_over_in(started: Instant, opstamp: Opstamp, schedule: Duration) -> bool {
    call_ensures(Instant::elapsed, (&started,), schedule)
}

/// `since` was read off the clock when a commit had been handed over to an updater that was still in
/// the state `before`.
pub closed spec fn waiting_since(before: UpdaterView, since: Instant) -> bool {
    call_ensures(Instant::now, (), since)
}

/// `wait` had elapsed since `since` when the updater was in the state `after`.
pub closed spec fn waited_until(since: Instant, after: UpdaterView, wait: Duration) -> bool {
    call_ensures(Instant::elapsed, (&since,), wait)
}

/// Starts to measure how long it takes to hand a commit over.
pub fn start(updater: &SegmentUpdater) -> (started: Instant)
    ensures
        begun_at(updater@, started),
{
    Instant::now()
}

/// Measures how long it took to hand the commit over, and starts to measure the wait for it.
pub fn handed_over(started: Instant, commit: &ScheduledCommit<'_>) -> (measured: (
    Duration,
    Instant,
))
    ensures
        handed_over_in(started, commit.opstamp, measured.0),
        waiting_since(old(commit.updater)@, measured.1),
{
    let schedule = started.elapsed();
    (schedule, Instant::now())
}

/// Measures how long it took until the updater was as it is now.
pub fn waited(since: Instant, updater: &SegmentUpdater) -> (wait: Duration)
    ensures
        waited_until(since, updater@, wait),
{
    since.elapsed()
}

/// Both times are readings of the clock, of what had elapsed since an instant that was itself read
/// off it: neither is made up.
pub proof fn law_times_are_read_off_the_clock(
    state: UpdaterView,
    opstamp: Opstamp,
    started: Instant,
    span: Duration,
)
    ensures
        begun_at(state, started) ==> call_ensures(Instant::now, (), started),
        handed_over_in(started, opstamp, span) ==> call_ensures(
            Instant::elapsed,
            (&started,),
            span,
        ),
        waiting_since(state, started) ==> call_ensures(Instant::now, (), started),
        waited_until(started, state, span) ==> call_ensures(Instant::elapsed, (&started,), span),
{
}

} // verus!
