//! Wall-clock timing for spans, through std::time. The clock is an outside
//! source: nothing is promised of the values it yields, and every contract
//! that involves a duration quantifies over it.

use vstd::prelude::*;

verus! {

#[verifier::external_type_specification]
#[verifier::external_body]
pub struct ExInstant(std::time::Instant);

/// Relies on std::time::Instant::now. The result is the clock's, so nothing
/// is promised of it.
#[verifier::external_body]
fn instant_now() -> std::time::Instant {
    std::time::Instant::now()
}

/// Relies on std::time::Instant::elapsed. The result depends on the clock, so
/// nothing is promised of it.
#[verifier::external_body]
fn instant_elapsed(start: &std::time::Instant) -> std::time::Duration {
    start.elapsed()
}

/// Relies on std::time::Duration::as_millis, truncated into a u64.
#[verifier::external_body]
fn duration_millis(d: &std::time::Duration) -> u64 {
    d.as_millis() as u64
}

/// A span's stopwatch: the instant the span was created.
pub struct Timer {
    start: std::time::Instant,
}

impl Timer {
    /// The instant this timer was started at.
    pub closed spec fn start_instant(&self) -> std::time::Instant {
        self.start
    }

    /// A timer that began at the given instant.
    pub fn new(start: std::time::Instant) -> (t: Timer)
        ensures
            t.start_instant() == start,
    {
        Timer { start }
    }

    /// A timer that begins now.
    pub fn start() -> Timer {
        Timer { start: instant_now() }
    }

    /// Whole milliseconds elapsed since the timer began. The value comes from
    /// the clock, so no contract constrains it.
    pub fn finish(&self) -> u64 {
        duration_millis(&instant_elapsed(&self.start))
    }
}

} // verus!
