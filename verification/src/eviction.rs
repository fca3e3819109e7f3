//! Which frames leave the window at a tick, and which stay.
use vstd::prelude::*;
use crate::clock::Instant;

verus! {

/// What is left of `frames` at `now` once the oldest frames have been dropped,
/// one by one, for as long as the oldest is more than `second` ticks old.
///
/// A frame that is exactly `second` ticks old stays.
pub open spec fn retained(frames: Seq<Instant>, now: Instant, second: u64) -> Seq<Instant>
    decreases frames.len(),
{
    if frames.len() > 0 && frames[0].older_than(now, second) {
        retained(frames.drop_first(), now, second)
    } else {
        frames
    }
}

/// Whether no instant of `frames` is earlier than one that stands before it.
pub open spec fn non_decreasing(frames: Seq<Instant>) -> bool {
    forall|i: int, j: int| 0 <= i <= j < frames.len() ==> frames[i].ticks <= frames[j].ticks
}

/// Whether `now` is no earlier than any instant of `frames`: what a clock
/// that never runs backwards reports after them.
pub open spec fn not_before(now: Instant, frames: Seq<Instant>) -> bool {
    forall|i: int| 0 <= i < frames.len() ==> frames[i].ticks <= now.ticks
}

/// Whether `frames` are in order and `now` comes no earlier than any of them:
/// what a window holds, and what is read next, while the clock never runs
/// backwards.
pub open spec fn in_order_until(frames: Seq<Instant>, now: Instant) -> bool {
    non_decreasing(frames) && not_before(now, frames)
}

/// Whether every instant of `frames` is at most `second` ticks old at `now`.
pub open spec fn all_within(frames: Seq<Instant>, now: Instant, second: u64) -> bool {
    forall|i: int| 0 <= i < frames.len() ==> !frames[i].older_than(now, second)
}

/// The instants of `history` that are at most `second` ticks old at `now`, in
/// their order.
pub open spec fn in_last_second(history: Seq<Instant>, now: Instant, second: u64) -> Seq<Instant> {
    history.filter(|at: Instant| !at.older_than(now, second))
}

/// Eviction takes frames from the front only: what is retained is the end of
/// `frames`, every frame before it is more than a second old, and the first
/// that stays is not.
pub proof fn lemma_retained_is_suffix(frames: Seq<Instant>, now: Instant, second: u64)
    ensures
        ({
            let kept = retained(frames, now, second);
            let dropped = frames.len() - kept.len();
            &&& kept.len() <= frames.len()
            &&& kept == frames.skip(dropped)
            &&& forall|i: int| 0 <= i < dropped ==> frames[i].older_than(now, second)
            &&& kept.len() > 0 ==> !kept[0].older_than(now, second)
        }),
    decreases frames.len(),
{
    let kept = retained(frames, now, second);
    if frames.len() > 0 && frames[0].older_than(now, second) {
        let rest = frames.drop_first();
        lemma_retained_is_suffix(rest, now, second);
        let dropped = frames.len() - kept.len();
        assert(kept =~= frames.skip(dropped));
        assert forall|i: int| 0 <= i < dropped implies frames[i].older_than(now, second) by {
            if i > 0 {
                assert(frames[i] == rest[i - 1]);
            }
        }
    } else {
        assert(kept =~= frames.skip(0));
    }
}

/// A sequence whose items all pass a test is what the test lets through.
proof fn lemma_filter_keeps_all(items: Seq<Instant>, test: spec_fn(Instant) -> bool)
    requires
        forall|i: int| 0 <= i < items.len() ==> test(items[i]),
    ensures
        items.filter(test) == items,
    decreases items.len(),
{
    reveal(Seq::filter);
    if items.len() > 0 {
        lemma_filter_keeps_all(items.drop_last(), test);
        assert(items.drop_last().push(items.last()) =~= items);
    }
}

/// When the frames are in order, eviction is exact: what is retained is
/// every frame that is at most a second old, and nothing else.
pub proof fn lemma_retained_is_last_second(frames: Seq<Instant>, now: Instant, second: u64)
    requires
        non_decreasing(frames),
    ensures
        retained(frames, now, second) == in_last_second(frames, now, second),
    decreases frames.len(),
{
    let test = |at: Instant| !at.older_than(now, second);
    if frames.len() > 0 && frames[0].older_than(now, second) {
        let rest = frames.drop_first();
        assert forall|i: int, j: int| 0 <= i <= j < rest.len() implies rest[i].ticks
            <= rest[j].ticks by {
            assert(rest[i] == frames[i + 1] && rest[j] == frames[j + 1]);
        }
        lemma_retained_is_last_second(rest, now, second);
        let first = seq![frames[0]];
        assert(first + rest =~= frames);
        Seq::filter_distributes_over_add(first, rest, test);
        assert(first.filter(test) =~= Seq::<Instant>::empty()) by {
            reveal_with_fuel(Seq::filter, 2);
        }
        assert(frames.filter(test) =~= rest.filter(test));
    } else {
        assert forall|i: int| 0 <= i < frames.len() implies test(frames[i]) by {
            assert(frames[0].ticks <= frames[i].ticks);
        }
        lemma_filter_keeps_all(frames, test);
    }
}

/// Evicting at an instant and then at a later one leaves what evicting at the
/// later one alone leaves.
pub proof fn lemma_retained_twice(
    frames: Seq<Instant>,
    earlier: Instant,
    later: Instant,
    second: u64,
)
    requires
        earlier.ticks <= later.ticks,
    ensures
        retained(retained(frames, earlier, second), later, second) == retained(
            frames,
            later,
            second,
        ),
    decreases frames.len(),
{
    if frames.len() > 0 && frames[0].older_than(earlier, second) {
        lemma_retained_twice(frames.drop_first(), earlier, later, second);
    }
}

} // verus!
