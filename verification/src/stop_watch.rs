//! A wall-clock stopwatch for reporting how long the run's stages take. Time
//! comes from the machine, so nothing is assumed about the values read.

use vstd::prelude::*;

verus! {

#[verifier::external_type_specification]
#[verifier::external_body]
pub struct ExInstant(std::time::Instant);

/// Relies on std::time::Instant::now. The value depends on the clock, so
/// nothing is assumed of it.
#[verifier::external_body]
fn instant_now() -> std::time::Instant {
    std::time::Instant::now()
}

/// Relies on std::time::Instant::elapsed. The value depends on the clock, so
/// nothing is assumed of it.
#[verifier::external_body]
fn instant_elapsed(since: &std::time::Instant) -> std::time::Duration {
    since.elapsed()
}

/// Relies on std::time::Duration::as_millis. The duration is opaque here, so
/// nothing is assumed of the count.
#[verifier::external_body]
fn duration_as_millis(d: &std::time::Duration) -> u128 {
    d.as_millis()
}

/// A stopwatch running since its construction.
pub struct StopWatch {
    now: std::time::Instant,
}

impl StopWatch {
    pub fn new() -> StopWatch {
        StopWatch { now: instant_now() }
    }

    /// Milliseconds elapsed since construction.
    pub fn get_ms_duration(&self) -> u128 {
        let elapsed = instant_elapsed(&self.now);
        duration_as_millis(&elapsed)
    }
}

} // verus!
