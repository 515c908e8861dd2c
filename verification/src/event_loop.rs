//! A tiny event-loop abstraction for periodic server ticks.

use vstd::prelude::*;

verus! {

#[verifier::external_type_specification]
#[verifier::external_body]
pub struct ExInstant(std::time::Instant);

/// `Instant::now`: the current monotonic time. Nothing is stated of it.
#[verifier::external_body]
fn instant_now() -> std::time::Instant {
    std::time::Instant::now()
}

/// What `Duration::from_millis(ms)` gives.
pub uninterp spec fn millis_duration(ms: u64) -> std::time::Duration;

/// `Duration::from_millis`: a duration of `ms` milliseconds; the result is
/// the same for the same `ms`.
#[verifier::external_body]
fn duration_from_millis(ms: u64) -> (d: std::time::Duration)
    ensures
        d == millis_duration(ms),
{
    std::time::Duration::from_millis(ms)
}

/// Drives periodic server ticks every `tick_ms` milliseconds and records
/// when the last tick ran.
#[derive(Debug)]
pub struct EventLoop {
    tick_ms: u64,
    last_run: Option<std::time::Instant>,
}

impl EventLoop {
    pub closed spec fn tick_ms_spec(&self) -> u64 {
        self.tick_ms
    }

    /// Whether a tick has run.
    pub closed spec fn has_run(&self) -> bool {
        self.last_run is Some
    }

    /// Create a new event loop which intends to run `tick` every `tick_ms` ms.
    pub fn new(tick_ms: u64) -> (e: Self)
        ensures
            e.tick_ms_spec() == tick_ms,
            !e.has_run(),
    {
        EventLoop { tick_ms, last_run: None }
    }

    /// Run a single tick: record the time it ran and report that the loop
    /// would process work.
    pub fn tick(&mut self) -> (r: Result<bool, String>)
        ensures
            r == Ok::<bool, String>(true),
            final(self).has_run(),
            final(self).tick_ms_spec() == old(self).tick_ms_spec(),
    {
        self.last_run = Some(instant_now());
        Ok(true)
    }

    /// The configured tick interval.
    pub fn tick_interval(&self) -> (d: std::time::Duration)
        ensures
            d == millis_duration(self.tick_ms_spec()),
    {
        duration_from_millis(self.tick_ms)
    }

    /// When the last tick ran, if one has.
    pub fn last_run(&self) -> (t: Option<std::time::Instant>)
        ensures
            t is Some == self.has_run(),
    {
        self.last_run
    }
}

} // verus!
