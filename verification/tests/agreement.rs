use embedded_fps::{ClockError, Error, Instant, TimeSource, FPS};
use embedded_time::duration::Seconds;
use embedded_time::fraction::Fraction;
use embedded_time::Clock;
use heapless::Deque;
use std::cell::Cell;

/// A millisecond clock of `embedded-time` that is set by hand.
#[derive(Debug)]
struct Manual {
    now: Cell<u64>,
}

impl Clock for Manual {
    type T = u64;

    const SCALING_FACTOR: Fraction = Fraction::new(1, 1_000);

    fn try_now(&self) -> Result<embedded_time::Instant<Self>, embedded_time::clock::Error> {
        Ok(embedded_time::Instant::new(self.now.get()))
    }
}

impl TimeSource for Manual {
    const TICKS_PER_SECOND: u64 = 1_000;

    fn try_now(&self) -> Result<Instant, ClockError> {
        Ok(Instant::new(self.now.get()))
    }
}

/// The count of the last second, kept with a deque of `embedded-time` instants.
fn count_with_deque<const N: usize>(
    frames: &mut Deque<embedded_time::Instant<Manual>, N>,
    now: embedded_time::Instant<Manual>,
) -> Result<usize, Error> {
    let a_second_ago = now - Seconds(1_u32);
    while frames.front().copied().map_or(false, |frame| frame < a_second_ago) {
        frames.pop_front();
    }
    match frames.push_back(now) {
        Ok(()) => Ok(frames.len()),
        Err(_) => Err(Error::MaxFPS(N)),
    }
}

fn steps(seed: u64, count: usize) -> Vec<u64> {
    let mut state = seed;
    let mut steps = Vec::new();
    for _ in 0..count {
        state ^= state << 13;
        state ^= state >> 7;
        state ^= state << 17;
        steps.push(match state % 11 {
            0 => 0,
            1 => 1_000,
            2 => 1_001,
            3 => 999,
            4 => 2_500,
            _ => (state >> 16) % 90,
        });
    }
    steps
}

#[test]
fn readings_agree_with_a_deque_of_embedded_time_instants() {
    let clock = Manual { now: Cell::new(0) };
    let mut fps = FPS::<16, _>::new(Manual { now: Cell::new(0) });
    let mut frames: Deque<embedded_time::Instant<Manual>, 16> = Deque::new();
    let mut now = 0;
    let mut full = 0;
    let mut counted = 0;
    for step in steps(0x9e37_79b9_7f4a_7c15, 5_000) {
        now += step;
        clock.now.set(now);
        let expected = count_with_deque(&mut frames, Clock::try_now(&clock).unwrap());
        assert_eq!(fps.record(Ok(Instant::new(now))), expected);
        match expected {
            Ok(_) => counted += 1,
            Err(_) => full += 1,
        }
    }
    assert!(full > 0);
    assert!(counted > 1_000);
}

#[test]
fn capped_readings_agree_with_a_deque_of_embedded_time_instants() {
    let clock = Manual { now: Cell::new(0) };
    let mut fps = FPS::<8, _>::new(Manual { now: Cell::new(0) });
    let mut frames: Deque<embedded_time::Instant<Manual>, 8> = Deque::new();
    let mut now = 0;
    for step in steps(0x0123_4567_89ab_cdef, 5_000) {
        now += step;
        clock.now.set(now);
        let expected = match count_with_deque(&mut frames, Clock::try_now(&clock).unwrap()) {
            Err(Error::MaxFPS(_)) => Ok(8),
            other => other,
        };
        assert_eq!(fps.record_capped(Ok(Instant::new(now))), expected);
    }
}

#[test]
fn a_clock_of_both_kinds_drives_the_counter() {
    let mut fps = FPS::<4, _>::new(Manual { now: Cell::new(5) });
    assert_eq!(fps.try_tick(), Ok(1));
    assert_eq!(fps.try_tick(), Ok(2));
    assert_eq!(fps.try_tick_max(), Ok(3));
    assert_eq!(fps.try_tick_max(), Ok(4));
    assert_eq!(fps.try_tick_max(), Ok(4));
    assert_eq!(fps.try_tick(), Err(Error::MaxFPS(4)));
}
