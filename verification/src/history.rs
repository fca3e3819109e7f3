//! What a counter shows over a whole run of ticks.
//!
//! A run is the sequence of the instants at which the clock was read, one per
//! tick, first tick first. The statements here are about every run, and they
//! are proved from the definitions that the counter's own contracts use.
use vstd::prelude::*;
use crate::clock::Instant;
use crate::eviction::{
    in_last_second, lemma_retained_is_last_second, lemma_retained_is_suffix, lemma_retained_twice,
    non_decreasing, not_before, retained,
};
use crate::fps::{capped, recorded, Error};

verus! {

/// The frames that a counter with room for `capacity` frames holds after a
/// tick at each instant of `history` in turn, when it had seen no frame before.
pub open spec fn replayed(history: Seq<Instant>, second: u64, capacity: usize) -> Seq<Instant>
    decreases history.len(),
{
    if history.len() == 0 {
        Seq::empty()
    } else {
        recorded(
            replayed(history.drop_last(), second, capacity),
            history.last(),
            second,
            capacity,
        ).0
    }
}

/// The reading of the last tick of `history`.
pub open spec fn reading_after(history: Seq<Instant>, second: u64, capacity: usize) -> Result<
    usize,
    Error,
>
    recommends
        history.len() > 0,
{
    recorded(
        replayed(history.drop_last(), second, capacity),
        history.last(),
        second,
        capacity,
    ).1
}

/// `count` frames at the one instant `at`.
pub open spec fn repeated(at: Instant, count: nat) -> Seq<Instant> {
    Seq::new(count, |i: int| at)
}

/// One more tick of a run is one more step of the counter.
pub proof fn lemma_replayed_push(history: Seq<Instant>, now: Instant, second: u64, capacity: usize)
    ensures
        replayed(history.push(now), second, capacity) == recorded(
            replayed(history, second, capacity),
            now,
            second,
            capacity,
        ).0,
        reading_after(history.push(now), second, capacity) == recorded(
            replayed(history, second, capacity),
            now,
            second,
            capacity,
        ).1,
{
    assert(history.push(now).drop_last() =~= history);
}

/// The first tick of a counter with room for a frame reads 1, whenever it comes.
pub proof fn lemma_first_tick(now: Instant, second: u64, capacity: usize)
    requires
        capacity >= 1,
    ensures
        recorded(Seq::<Instant>::empty(), now, second, capacity) == (seq![now], Ok::<usize, Error>(1)),
{
    assert(Seq::<Instant>::empty().push(now) =~= seq![now]);
}

/// A tick that comes more than a second after every frame in the window
/// reads 1: all of them leave, however many there were.
pub proof fn lemma_pause_resets(frames: Seq<Instant>, now: Instant, second: u64, capacity: usize)
    requires
        capacity >= 1,
        forall|i: int| 0 <= i < frames.len() ==> frames[i].older_than(now, second),
    ensures
        recorded(frames, now, second, capacity) == (seq![now], Ok::<usize, Error>(1)),
    decreases frames.len(),
{
    if frames.len() > 0 {
        let rest = frames.drop_first();
        assert forall|i: int| 0 <= i < rest.len() implies rest[i].older_than(now, second) by {
            assert(rest[i] == frames[i + 1]);
        }
        lemma_pause_resets(rest, now, second, capacity);
    } else {
        lemma_first_tick(now, second, capacity);
    }
}

/// Two ticks more than a second apart: the second one reads 1, not 2.
///
/// A tick exactly one second after the first reads 2, for a frame that is
/// exactly a second old stays.
pub proof fn lemma_tick_after_a_second(
    earlier: Instant,
    later: Instant,
    second: u64,
    capacity: usize,
)
    requires
        capacity >= 1,
    ensures
        reading_after(seq![earlier], second, capacity) == Ok::<usize, Error>(1),
        earlier.older_than(later, second) ==> reading_after(seq![earlier, later], second, capacity)
            == Ok::<usize, Error>(1),
        capacity >= 2 && earlier.ticks + second == later.ticks ==> reading_after(
            seq![earlier, later],
            second,
            capacity,
        ) == Ok::<usize, Error>(2),
{
    let none = Seq::<Instant>::empty();
    lemma_first_tick(earlier, second, capacity);
    lemma_replayed_push(none, earlier, second, capacity);
    assert(none.push(earlier) =~= seq![earlier]);
    lemma_replayed_push(seq![earlier], later, second, capacity);
    assert(seq![earlier].push(later) =~= seq![earlier, later]);
    if earlier.older_than(later, second) {
        lemma_pause_resets(seq![earlier], later, second, capacity);
    }
}

/// Ticks without time between them fill the window: tick number `count` reads
/// `count` as long as there is room.
pub proof fn lemma_repeated_fills(at: Instant, count: nat, second: u64, capacity: usize)
    requires
        count <= capacity,
    ensures
        replayed(repeated(at, count), second, capacity) == repeated(at, count),
        count > 0 ==> reading_after(repeated(at, count), second, capacity) == Ok::<usize, Error>(
            count as usize,
        ),
    decreases count,
{
    if count > 0 {
        let before = repeated(at, (count - 1) as nat);
        lemma_repeated_fills(at, (count - 1) as nat, second, capacity);
        assert(before.push(at) =~= repeated(at, count));
        lemma_replayed_push(before, at, second, capacity);
        lemma_retained_is_suffix(before, at, second);
    } else {
        assert(repeated(at, count) =~= Seq::<Instant>::empty());
    }
}

/// A counter with room for `capacity` frames that is ticked `capacity + 1`
/// times without time between the ticks fails on the last of them with
/// `MaxFPS(capacity)`, and reads `capacity` where a full window is capped.
/// The window is left as it was.
pub proof fn lemma_capacity_exceeded(at: Instant, second: u64, capacity: usize)
    ensures
        reading_after(repeated(at, (capacity + 1) as nat), second, capacity) == Err::<
            usize,
            Error,
        >(Error::MaxFPS(capacity)),
        capped(reading_after(repeated(at, (capacity + 1) as nat), second, capacity), capacity)
            == Ok::<usize, Error>(capacity),
        replayed(repeated(at, (capacity + 1) as nat), second, capacity) == repeated(
            at,
            capacity as nat,
        ),
{
    let full = repeated(at, capacity as nat);
    lemma_repeated_fills(at, capacity as nat, second, capacity);
    assert(full.push(at) =~= repeated(at, (capacity + 1) as nat));
    lemma_replayed_push(full, at, second, capacity);
    lemma_retained_is_suffix(full, at, second);
}

/// The instants of `history` whose tick was counted: those at which the
/// window had room.
pub open spec fn counted(history: Seq<Instant>, second: u64, capacity: usize) -> Seq<Instant>
    decreases history.len(),
{
    if history.len() == 0 {
        Seq::empty()
    } else if reading_after(history, second, capacity) is Ok {
        counted(history.drop_last(), second, capacity).push(history.last())
    } else {
        counted(history.drop_last(), second, capacity)
    }
}

/// The counted ticks of a run are in the order of the run, and none is later
/// than the last tick.
pub proof fn lemma_counted_in_order(history: Seq<Instant>, second: u64, capacity: usize)
    requires
        non_decreasing(history),
    ensures
        non_decreasing(counted(history, second, capacity)),
        history.len() > 0 ==> not_before(history.last(), counted(history, second, capacity)),
        counted(history, second, capacity).len() <= history.len(),
    decreases history.len(),
{
    if history.len() > 0 {
        let before = history.drop_last();
        lemma_drop_last_in_order(history);
        lemma_counted_in_order(before, second, capacity);
        if before.len() > 0 {
            assert(before.last() == history[history.len() - 2]);
        }
    }
}

/// A run without its last tick is still in order.
proof fn lemma_drop_last_in_order(history: Seq<Instant>)
    requires
        history.len() > 0,
        non_decreasing(history),
    ensures
        non_decreasing(history.drop_last()),
{
    let before = history.drop_last();
    assert forall|i: int, j: int| 0 <= i <= j < before.len() implies before[i].ticks
        <= before[j].ticks by {
        assert(before[i] == history[i] && before[j] == history[j]);
    }
}

/// The window is exact. When the clock never ran backwards, the window holds
/// after every tick the instant of each counted tick that is at most a second
/// old at that tick, and nothing else; a reading is their number.
pub proof fn lemma_window_is_last_second(history: Seq<Instant>, second: u64, capacity: usize)
    requires
        history.len() > 0,
        non_decreasing(history),
    ensures
        replayed(history, second, capacity) == in_last_second(
            counted(history, second, capacity),
            history.last(),
            second,
        ),
        reading_after(history, second, capacity) matches Ok(count) ==> count == in_last_second(
            counted(history, second, capacity),
            history.last(),
            second,
        ).len(),
    decreases history.len(),
{
    let now = history.last();
    let before = history.drop_last();
    let known = counted(before, second, capacity);
    let test = |at: Instant| !at.older_than(now, second);
    lemma_drop_last_in_order(history);
    lemma_counted_in_order(before, second, capacity);
    lemma_retained_is_last_second(known, now, second);
    if before.len() == 0 {
        assert(known =~= Seq::<Instant>::empty());
    } else {
        lemma_window_is_last_second(before, second, capacity);
        lemma_retained_is_last_second(known, before.last(), second);
        assert(before.last() == history[history.len() - 2]);
        lemma_retained_twice(known, before.last(), now, second);
    }
    assert(retained(replayed(before, second, capacity), now, second) == known.filter(test));
    if reading_after(history, second, capacity) is Ok {
        assert(known.push(now).filter(test) == known.filter(test).push(now)) by {
            reveal(Seq::filter);
            assert(known.push(now).drop_last() =~= known);
        }
    }
}

/// When no tick of a run has failed, every tick of it was counted.
pub proof fn lemma_all_counted(history: Seq<Instant>, second: u64, capacity: usize)
    requires
        forall|k: int|
            0 < k <= history.len() ==> (#[trigger] reading_after(
                history.take(k),
                second,
                capacity,
            )) is Ok,
    ensures
        counted(history, second, capacity) == history,
    decreases history.len(),
{
    if history.len() > 0 {
        let before = history.drop_last();
        assert forall|k: int| 0 < k <= before.len() implies (#[trigger] reading_after(
            before.take(k),
            second,
            capacity,
        )) is Ok by {
            assert(before.take(k) =~= history.take(k));
        }
        lemma_all_counted(before, second, capacity);
        assert(history.take(history.len() as int) =~= history);
        assert(before.push(history.last()) =~= history);
    } else {
        assert(history =~= Seq::<Instant>::empty());
    }
}

/// The reading is exact. When the clock never ran backwards and no tick so
/// far has failed, the window holds the instant of every tick that is at most
/// a second old at the last one, and the last reading is their number.
pub proof fn lemma_reading_is_exact(history: Seq<Instant>, second: u64, capacity: usize)
    requires
        history.len() > 0,
        non_decreasing(history),
        forall|k: int|
            0 < k <= history.len() ==> (#[trigger] reading_after(
                history.take(k),
                second,
                capacity,
            )) is Ok,
    ensures
        replayed(history, second, capacity) == in_last_second(history, history.last(), second),
        reading_after(history, second, capacity) == Ok::<usize, Error>(
            in_last_second(history, history.last(), second).len() as usize,
        ),
{
    lemma_all_counted(history, second, capacity);
    lemma_window_is_last_second(history, second, capacity);
    assert(history.take(history.len() as int) =~= history);
}

/// A run never leaves more frames in the window than it has room for.
pub proof fn lemma_replayed_fits(history: Seq<Instant>, second: u64, capacity: usize)
    ensures
        replayed(history, second, capacity).len() <= capacity,
    decreases history.len(),
{
    if history.len() > 0 {
        lemma_replayed_fits(history.drop_last(), second, capacity);
        lemma_retained_is_suffix(
            replayed(history.drop_last(), second, capacity),
            history.last(),
            second,
        );
    }
}

} // verus!
