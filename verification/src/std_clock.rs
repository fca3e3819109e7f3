//! A clock for hosted programs.
use vstd::prelude::*;
use crate::clock::{ClockError, Instant, TimeSource};

verus! {

/// A reading of the operating system's monotonic clock.
#[verifier::external_type_specification]
#[verifier::external_body]
pub struct ExStdInstant(std::time::Instant);

/// `std::time::Instant::now`: the monotonic clock's current reading, whatever it is.
#[verifier::external_body]
fn monotonic_now() -> std::time::Instant {
    std::time::Instant::now()
}

/// `std::time::Instant::elapsed`: the time that has passed since `start` was
/// read, whatever it is.
#[verifier::external_body]
fn elapsed_since(start: &std::time::Instant) -> core::time::Duration {
    start.elapsed()
}

/// `core::time::Duration::as_nanos`: the whole duration in nanoseconds,
/// whatever it is.
#[verifier::external_body]
fn whole_nanos(duration: &core::time::Duration) -> u128 {
    duration.as_nanos()
}

/// A clock on top of the operating system's monotonic clock.
///
/// It counts the nanoseconds since it was made in 64 bits, which wrap after
/// some 584 years. It can always be read.
#[derive(Debug, Clone, Copy)]
pub struct StdClock(std::time::Instant);

impl StdClock {
    /// The clock counts nanoseconds: a thousand million ticks make up a second.
    pub proof fn lemma_counts_nanoseconds()
        ensures
            StdClock::TICKS_PER_SECOND == 1_000_000_000,
    {
    }

    /// Starts a clock: its epoch is the moment of this call.
    pub fn new() -> (clock: StdClock) {
        StdClock(monotonic_now())
    }

    /// The instant that the clock reports when `nanos` nanoseconds have
    /// passed since its epoch: the lower 64 bits of their number.
    pub fn instant_after(nanos: u128) -> (instant: Instant)
        ensures
            instant.ticks == nanos % 0x1_0000_0000_0000_0000,
    {
        let wrapped: u128 = nanos % 0x1_0000_0000_0000_0000u128;
        Instant::new(wrapped as u64)
    }
}

impl Default for StdClock {
    /// Starts a clock, as `new` does.
    fn default() -> (clock: StdClock) {
        StdClock::new()
    }
}

impl TimeSource for StdClock {
    const TICKS_PER_SECOND: u64 = 1_000_000_000;

    /// Reads the clock: `instant_after` the time that has passed since the
    /// clock was made. This never fails.
    fn try_now(&self) -> (reading: Result<Instant, ClockError>)
        ensures
            reading is Ok,
    {
        let nanos: u128 = whole_nanos(&elapsed_since(&self.0));
        Ok(StdClock::instant_after(nanos))
    }
}

} // verus!
