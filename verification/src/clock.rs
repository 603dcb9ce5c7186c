//! The clock: what the crate takes from `std::time` to report how long a step took.
use std::time::Duration;
use vstd::prelude::*;

verus! {

/// `std::time::Instant`, a reading of the monotonic clock. Nothing is known of its value.
#[verifier::external_type_specification]
#[verifier::external_body]
pub struct ExInstant(std::time::Instant);

/// `std::time::Instant::now`. What it returns depends on the clock, so nothing is claimed of it.
pub assume_specification[ std::time::Instant::now ]() -> (now: std::time::Instant)
;

/// `std::time::Instant::elapsed`. What it returns depends on the clock, so nothing is claimed of
/// it.
pub assume_specification[ std::time::Instant::elapsed ](
    started: &std::time::Instant,
) -> (elapsed: std::time::Duration)
;

/// The span of `secs` whole seconds and `nanos` nanoseconds.
pub uninterp spec fn duration_of(secs: u64, nanos: u32) -> Duration;

/// `std::time::Duration::new`, which builds the span its two arguments describe. The nanoseconds
/// stay below a full second, so that nothing carries over into the seconds.
pub assume_specification[ std::time::Duration::new ](secs: u64, nanos: u32) -> (span:
    std::time::Duration)
    requires
        nanos < 1_000_000_000,
    ensures
        span == duration_of(secs, nanos),
;

/// The empty span.
pub open spec fn zero_duration() -> Duration {
    duration_of(0, 0)
}

} // verus!
