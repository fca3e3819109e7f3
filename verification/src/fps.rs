//! The frames-per-second counter.
use vstd::prelude::*;
use crate::clock::{ClockError, Instant, TimeSource};
use crate::eviction::{
    all_within, in_last_second, in_order_until, lemma_retained_is_last_second,
    lemma_retained_is_suffix, non_decreasing, not_before, retained,
};
use crate::window::Window;

verus! {

/// Why a tick gave no reading.
#[derive(Clone, Copy, Debug, PartialEq, Eq, Structural)]
pub enum Error {
    /// The clock could not be read.
    Clock(ClockError),
    /// The window already holds as many frames of the last second as it has
    /// room for: the number given.
    ///
    /// A larger `MAX_FPS` avoids this.
    MaxFPS(usize),
}

/// The frames that a counter with room for `capacity` frames holds after a
/// tick at `now`, and the reading of that tick.
///
/// The frame of the tick joins those retained if there is room, and the
/// reading counts them all. If there is none, the retained frames stay as they
/// are and the tick fails.
pub open spec fn recorded(frames: Seq<Instant>, now: Instant, second: u64, capacity: usize) -> (
    Seq<Instant>,
    Result<usize, Error>,
) {
    let kept = retained(frames, now, second);
    if kept.len() < capacity {
        (kept.push(now), Ok((kept.len() + 1) as usize))
    } else {
        (kept, Err(Error::MaxFPS(capacity)))
    }
}

/// The frames after a tick for which the clock gave `reading`, and the
/// reading of that tick. A clock that fails leaves the frames alone.
pub open spec fn ticked(
    frames: Seq<Instant>,
    reading: Result<Instant, ClockError>,
    second: u64,
    capacity: usize,
) -> (Seq<Instant>, Result<usize, Error>) {
    match reading {
        Ok(now) => recorded(frames, now, second, capacity),
        Err(cause) => (frames, Err(Error::Clock(cause))),
    }
}

/// The reading `fps` with a full window counted as `capacity` frames.
pub open spec fn capped(fps: Result<usize, Error>, capacity: usize) -> Result<usize, Error> {
    match fps {
        Err(Error::MaxFPS(_)) => Ok(capacity),
        _ => fps,
    }
}

/// The frames after a tick that counts a full window as `capacity` frames, and
/// the reading of that tick.
pub open spec fn ticked_capped(
    frames: Seq<Instant>,
    reading: Result<Instant, ClockError>,
    second: u64,
    capacity: usize,
) -> (Seq<Instant>, Result<usize, Error>) {
    let (after, fps) = ticked(frames, reading, second, capacity);
    (after, capped(fps, capacity))
}

/// With a clock that never runs backwards the frames stay in order, and after
/// a tick none of them is more than a second old, neither at the instant of
/// the tick nor at the newest frame.
pub proof fn lemma_order_kept(frames: Seq<Instant>, now: Instant, second: u64, capacity: usize)
    requires
        in_order_until(frames, now),
    ensures
        in_order_until(recorded(frames, now, second, capacity).0, now),
        all_within(recorded(frames, now, second, capacity).0, now, second),
        recorded(frames, now, second, capacity).0.len() > 0 ==> all_within(
            recorded(frames, now, second, capacity).0,
            recorded(frames, now, second, capacity).0.last(),
            second,
        ),
{
    lemma_retained_is_suffix(frames, now, second);
    let kept = retained(frames, now, second);
    let dropped = frames.len() - kept.len();
    assert forall|i: int| 0 <= i < kept.len() implies frames[dropped + i] == #[trigger] kept[i] by {}
    assert(non_decreasing(kept));
    assert(not_before(now, kept));
    assert(all_within(kept, now, second)) by {
        assert forall|i: int| 0 <= i < kept.len() implies !kept[i].older_than(now, second) by {
            assert(kept[0].ticks <= kept[i].ticks);
        }
    }
}

/// While the frames are in order, a tick at `now` fails exactly when the
/// window is full of frames that are at most a second old.
pub proof fn lemma_fails_when_full(
    frames: Seq<Instant>,
    now: Instant,
    second: u64,
    capacity: usize,
)
    requires
        non_decreasing(frames),
    ensures
        recorded(frames, now, second, capacity).1 is Err <==> in_last_second(
            frames,
            now,
            second,
        ).len() >= capacity,
        recorded(frames, now, second, capacity).1 is Err ==> recorded(
            frames,
            now,
            second,
            capacity,
        ) == (in_last_second(frames, now, second), Err::<usize, Error>(Error::MaxFPS(capacity))),
{
    lemma_retained_is_last_second(frames, now, second);
}

/// Counts the frames of the last second.
///
/// `MAX_FPS` is the largest number of frames per second that the counter can
/// hold, `C` the clock it reads.
#[derive(Debug)]
pub struct FPS<const MAX_FPS: usize, C: TimeSource> {
    /// The frames of the last second, oldest first.
    last_second_frames: Window<MAX_FPS>,
    /// The clock that says when a frame was drawn.
    clock: C,
}

impl<const MAX_FPS: usize, C: TimeSource> FPS<MAX_FPS, C> {
    /// The instants of the frames that the counter holds, oldest first.
    pub closed spec fn frames(&self) -> Seq<Instant> {
        self.last_second_frames@
    }

    /// The clock that the counter reads.
    pub closed spec fn clock(&self) -> C {
        self.clock
    }

    /// A counter never holds more than `MAX_FPS` frames.
    pub proof fn lemma_frames_bounded(self)
        ensures
            self.frames().len() <= MAX_FPS,
    {
        self.last_second_frames.lemma_len_bounded();
    }

    /// A counter that has seen no frame yet.
    pub fn new(clock: C) -> (fps: FPS<MAX_FPS, C>)
        ensures
            fps.frames() == Seq::<Instant>::empty(),
            fps.clock() == clock,
    {
        FPS { last_second_frames: Window::new(), clock }
    }

    /// Counts a frame at the instant that the clock was read at, if it could be
    /// read, and returns the number of frames in the second up to it.
    ///
    /// Frames that are more than a second old leave the window first, oldest
    /// first, up to the first that is not. The new frame is then counted
    /// unless the window is full. The reading is the number of frames that
    /// the window holds after that.
    ///
    /// The counter takes the instants as they come. As long as none is
    /// earlier than one before it, the frames stay in order and none that
    /// stays is more than a second old.
    pub fn record(&mut self, reading: Result<Instant, ClockError>) -> (fps: Result<
        usize,
        Error,
    >)
        ensures
            final(self).clock() == old(self).clock(),
            (final(self).frames(), fps) == ticked(
                old(self).frames(),
                reading,
                C::TICKS_PER_SECOND,
                MAX_FPS,
            ),
            final(self).frames().len() <= MAX_FPS,
            fps matches Ok(count) ==> count == final(self).frames().len(),
            reading matches Ok(now) ==> (in_order_until(old(self).frames(), now)
                ==> in_order_until(final(self).frames(), now) && all_within(
                final(self).frames(),
                now,
                C::TICKS_PER_SECOND,
            )),
    {
        proof {
            old(self).lemma_frames_bounded();
            if let Ok(now) = reading {
                if in_order_until(old(self).frames(), now) {
                    lemma_order_kept(old(self).frames(), now, C::TICKS_PER_SECOND, MAX_FPS);
                }
            }
        }
        let now = match reading {
            Ok(now) => now,
            Err(cause) => {
                return Err(Error::Clock(cause));
            },
        };
        loop
            invariant
                self.clock == old(self).clock,
                retained(self.frames(), now, C::TICKS_PER_SECOND) == retained(
                    old(self).frames(),
                    now,
                    C::TICKS_PER_SECOND,
                ),
            ensures
                self.frames() == retained(old(self).frames(), now, C::TICKS_PER_SECOND),
            decreases self.frames().len(),
        {
            match self.last_second_frames.front() {
                Some(oldest) if oldest.is_older_than(now, C::TICKS_PER_SECOND) => {
                    self.last_second_frames.pop_front();
                },
                _ => break ,
            }
        }
        let pushed = self.last_second_frames.push_back(now);
        proof {
            self.lemma_frames_bounded();
        }
        match pushed {
            Ok(()) => Ok(self.last_second_frames.len()),
            Err(_) => Err(Error::MaxFPS(MAX_FPS)),
        }
    }

    /// Like `record`, but a full window is no failure: the reading is then
    /// `MAX_FPS`. A clock that could not be read still is one.
    pub fn record_capped(&mut self, reading: Result<Instant, ClockError>) -> (fps: Result<
        usize,
        Error,
    >)
        ensures
            final(self).clock() == old(self).clock(),
            (final(self).frames(), fps) == ticked_capped(
                old(self).frames(),
                reading,
                C::TICKS_PER_SECOND,
                MAX_FPS,
            ),
            final(self).frames().len() <= MAX_FPS,
            fps matches Ok(count) ==> count == final(self).frames().len(),
            reading matches Ok(now) ==> (in_order_until(old(self).frames(), now)
                ==> in_order_until(final(self).frames(), now) && all_within(
                final(self).frames(),
                now,
                C::TICKS_PER_SECOND,
            )),
    {
        let counted = self.record(reading);
        match counted {
            Ok(fps) => Ok(fps),
            Err(Error::MaxFPS(_)) => Ok(MAX_FPS),
            Err(err) => Err(err),
        }
    }

    /// Counts a frame now and returns the number of frames in the last second.
    ///
    /// The clock decides what "now" is, and whether it can be told at all:
    /// the tick is `record` on a reading of the counter's own clock.
    pub fn try_tick(&mut self) -> (fps: Result<usize, Error>)
        ensures
            final(self).clock() == old(self).clock(),
            exists|reading: Result<Instant, ClockError>|
                call_ensures(C::try_now, (&old(self).clock(),), reading) && (
                    final(self).frames(),
                    fps,
                ) == #[trigger] ticked(
                    old(self).frames(),
                    reading,
                    C::TICKS_PER_SECOND,
                    MAX_FPS,
                ),
            final(self).frames().len() <= MAX_FPS,
            fps matches Ok(count) ==> count == final(self).frames().len(),
    {
        let reading = self.clock.try_now();
        self.record(reading)
    }

    /// Counts a frame now and returns the number of frames in the last second,
    /// or `MAX_FPS` if the window is full.
    ///
    /// The tick is `record_capped` on a reading of the counter's own clock.
    pub fn try_tick_max(&mut self) -> (fps: Result<usize, Error>)
        ensures
            final(self).clock() == old(self).clock(),
            exists|reading: Result<Instant, ClockError>|
                call_ensures(C::try_now, (&old(self).clock(),), reading) && (
                    final(self).frames(),
                    fps,
                ) == #[trigger] ticked_capped(
                    old(self).frames(),
                    reading,
                    C::TICKS_PER_SECOND,
                    MAX_FPS,
                ),
            final(self).frames().len() <= MAX_FPS,
            fps matches Ok(count) ==> count == final(self).frames().len(),
    {
        let reading = self.clock.try_now();
        self.record_capped(reading)
    }
}

impl<const MAX_FPS: usize, C: TimeSource + Clone> Clone for FPS<MAX_FPS, C> {
    /// A counter with the same frames, on a clone of the clock.
    fn clone(&self) -> (copy: Self)
        ensures
            copy.frames() == self.frames(),
            call_ensures(C::clone, (&self.clock(),), copy.clock()),
    {
        FPS { last_second_frames: self.last_second_frames.clone(), clock: self.clock.clone() }
    }
}

impl<const MAX_FPS: usize, C: TimeSource + Default> Default for FPS<MAX_FPS, C> {
    /// A counter that has seen no frame yet, on the clock that `C` makes by default.
    fn default() -> (fps: Self)
        ensures
            fps.frames() == Seq::<Instant>::empty(),
            call_ensures(C::default, (), fps.clock()),
    {
        Self::new(C::default())
    }
}

} // verus!
