//! Instants and the clocks that report them.
use vstd::prelude::*;

verus! {

/// Why a clock could not be read.
#[derive(Clone, Copy, Debug, PartialEq, Eq, Structural)]
pub enum ClockError {
    /// The cause is not known.
    Unspecified,
    /// The clock has stopped or was never started.
    NotRunning,
}

/// A point in time: the number of ticks that a clock has counted since its epoch.
///
/// Instants of one clock are ordered by their ticks.
#[derive(Clone, Copy, Debug, PartialEq, Eq, Structural)]
pub struct Instant {
    pub ticks: u64,
}

impl Instant {
    /// The instant `ticks` ticks after the epoch.
    pub fn new(ticks: u64) -> (instant: Instant)
        ensures
            instant.ticks == ticks,
    {
        Instant { ticks }
    }

    /// Whether more than `span` ticks lie between this instant and the later `now`.
    pub open spec fn older_than(self, now: Instant, span: u64) -> bool {
        self.ticks + span < now.ticks
    }

    /// Decides `older_than` without leaving the range of `u64`.
    pub fn is_older_than(&self, now: Instant, span: u64) -> (older: bool)
        ensures
            older == self.older_than(now, span),
    {
        now.ticks >= span && self.ticks < now.ticks - span
    }
}

/// A clock: it counts ticks at a fixed rate and reports the current instant.
///
/// Successive readings of one clock are expected not to decrease. Nothing in
/// this crate enforces that; what is proved of a counter under that
/// expectation says so.
pub trait TimeSource {
    /// The number of ticks that make up one second.
    const TICKS_PER_SECOND: u64;

    /// Reads the clock. A clock that cannot be read reports why.
    fn try_now(&self) -> (reading: Result<Instant, ClockError>);
}

} // verus!
