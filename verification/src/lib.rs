//! Frames-per-second counter over a sliding one-second window.
//!
//! A counter of type [`FPS`] keeps the instants of the frames that were drawn
//! during the last second in a [`Window`] of fixed capacity, and reports on
//! every tick how many there are. It allocates nothing.
//!
//! Time comes from a [`TimeSource`]: a clock that counts ticks at a fixed rate
//! and can be asked for the current [`Instant`]. [`StdClock`] is one for hosted
//! programs.
//!
//! - [`clock`]: instants, the clocks that report them, and how a clock fails.
//! - [`window`]: the queue that holds the frames of the last second.
//! - [`eviction`]: which frames leave the window at a tick.
//! - [`fps`]: the counter, and what a tick does to it.
//! - [`history`]: what the counter reads over a whole run of ticks.
//! - [`std_clock`]: the clock for hosted programs.
pub mod clock;
pub mod eviction;
pub mod fps;
pub mod history;
pub mod std_clock;
pub mod window;

pub use clock::{ClockError, Instant, TimeSource};
pub use fps::{Error, FPS};
pub use std_clock::StdClock;
pub use window::Window;
