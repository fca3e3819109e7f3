//! A queue of instants with a fixed capacity, stored in place.
use vstd::prelude::*;
use crate::clock::Instant;

verus! {

/// The slot that holds the `offset`-th item of a ring of `capacity` slots
/// whose first item is in slot `head`.
spec fn slot_of(head: int, offset: int, capacity: int) -> int {
    if head + offset < capacity {
        head + offset
    } else {
        head + offset - capacity
    }
}

/// A first-in, first-out queue of at most `N` instants.
///
/// The instants live in an array of `N` slots that is used as a ring: nothing
/// is allocated and nothing is moved when an instant enters or leaves. The
/// view of a window is the sequence of its instants, oldest first.
#[derive(Debug)]
pub struct Window<const N: usize> {
    slots: [Instant; N],
    /// The slot of the oldest instant.
    head: usize,
    /// The number of instants held.
    len: usize,
}

impl<const N: usize> View for Window<N> {
    type V = Seq<Instant>;

    closed spec fn view(&self) -> Seq<Instant> {
        // No window has more than `N` instants. Cutting the length off at `N`
        // lets that be stated of every value of the type.
        let len = if self.len <= N {
            self.len
        } else {
            N
        };
        Seq::new(len as nat, |i: int| self.slots@[slot_of(self.head as int, i, N as int)])
    }
}

impl<const N: usize> Window<N> {
    #[verifier::type_invariant]
    spec fn well_formed(self) -> bool {
        &&& self.len <= N
        &&& self.head <= N
        &&& N > 0 ==> self.head < N
    }

    /// A window never holds more instants than it has slots.
    pub proof fn lemma_len_bounded(self)
        ensures
            self@.len() <= N,
    {
    }

    /// An empty window.
    pub fn new() -> (window: Self)
        ensures
            window@ == Seq::<Instant>::empty(),
    {
        let window = Window { slots: [Instant { ticks: 0 }; N], head: 0, len: 0 };
        assert(window@ =~= Seq::<Instant>::empty());
        window
    }

    /// The number of instants in the window.
    pub fn len(&self) -> (len: usize)
        ensures
            len == self@.len(),
    {
        proof {
            use_type_invariant(self);
        }
        self.len
    }

    /// The oldest instant, if there is one.
    pub fn front(&self) -> (oldest: Option<Instant>)
        ensures
            oldest == (if self@.len() > 0 {
                Some(self@[0])
            } else {
                None
            }),
    {
        proof {
            use_type_invariant(self);
        }
        if self.len == 0 {
            None
        } else {
            Some(self.slots[self.head])
        }
    }

    /// Takes the oldest instant out, if there is one.
    pub fn pop_front(&mut self) -> (oldest: Option<Instant>)
        ensures
            old(self)@.len() == 0 ==> oldest is None && final(self)@ == old(self)@,
            old(self)@.len() > 0 ==> oldest == Some(old(self)@[0]) && final(self)@ == old(
                self,
            )@.drop_first(),
    {
        proof {
            use_type_invariant(&*self);
        }
        if self.len == 0 {
            return None;
        }
        let oldest = self.slots[self.head];
        self.head = if self.head + 1 == N {
            0
        } else {
            self.head + 1
        };
        self.len = self.len - 1;
        assert(self@ =~= old(self)@.drop_first());
        Some(oldest)
    }

    /// Puts `instant` behind the others, or hands it back when the window is full.
    pub fn push_back(&mut self, instant: Instant) -> (pushed: Result<(), Instant>)
        ensures
            old(self)@.len() < N ==> pushed is Ok && final(self)@ == old(self)@.push(instant),
            old(self)@.len() >= N ==> pushed == Err::<(), Instant>(instant) && final(self)@ == old(
                self,
            )@,
    {
        proof {
            use_type_invariant(&*self);
        }
        if self.len == N {
            return Err(instant);
        }
        let free = N - self.len;
        let back = if self.head >= free {
            self.head - free
        } else {
            self.head + self.len
        };
        self.slots[back] = instant;
        self.len = self.len + 1;
        assert(self@ =~= old(self)@.push(instant));
        Ok(())
    }
}

impl<const N: usize> Clone for Window<N> {
    /// A window with the same instants in the same order.
    fn clone(&self) -> (copy: Self)
        ensures
            copy@ == self@,
    {
        proof {
            use_type_invariant(self);
        }
        Window { slots: self.slots, head: self.head, len: self.len }
    }
}

} // verus!
