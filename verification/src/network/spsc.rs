//! A fixed-capacity first-in first-out ring buffer.
//!
//! Indices run freely and are masked onto the slots, so the capacity is a
//! power of two.

use vstd::prelude::*;

verus! {

/// A fixed-capacity ring buffer.
pub struct SpscRing<T> {
    slots: Vec<Option<T>>,
    head: usize,
    used: usize,
}

/// Whether a number is a power of two.
pub open spec fn is_power_of_two(n: nat) -> bool
    decreases n,
{
    n == 1 || (n > 1 && n % 2 == 0 && is_power_of_two(n / 2))
}

spec fn slot_of(head: int, i: int, capacity: int) -> int {
    if head + i < capacity {
        head + i
    } else {
        head + i - capacity
    }
}

impl<T> View for SpscRing<T> {
    type V = Seq<T>;

    closed spec fn view(&self) -> Seq<T> {
        Seq::new(
            self.used as nat,
            |i: int| self.slots@[slot_of(self.head as int, i, self.slots@.len() as int)]->0,
        )
    }
}

impl<T> SpscRing<T> {
    /// The most items the ring holds.
    pub closed spec fn room(&self) -> nat {
        self.slots@.len()
    }

    /// What every operation keeps: the items occupy the slots from the head
    /// on, and the others are free.
    pub closed spec fn wf(&self) -> bool {
        &&& self.slots@.len() > 0
        &&& self.head < self.slots@.len()
        &&& self.used <= self.slots@.len()
        &&& forall|i: int|
            0 <= i < self.slots@.len() ==> (#[trigger] self.slots@[slot_of(
                self.head as int,
                i,
                self.slots@.len() as int,
            )] is Some <==> i < self.used)
    }

    /// An empty ring. The capacity is a power of two and at least two.
    pub fn new(capacity: usize) -> (ring: SpscRing<T>)
        requires
            is_power_of_two(capacity as nat),
            capacity >= 2,
        ensures
            ring.wf(),
            ring@ == Seq::<T>::empty(),
            ring.room() == capacity,
    {
        let mut slots: Vec<Option<T>> = Vec::new();
        let mut i: usize = 0;
        while i < capacity
            invariant
                i <= capacity,
                slots@.len() == i,
                forall|j: int| 0 <= j < i ==> (#[trigger] slots@[j]) is None,
            decreases capacity - i,
        {
            slots.push(None);
            i = i + 1;
        }
        let ring = SpscRing { slots, head: 0, used: 0 };
        assert(ring@ =~= Seq::empty());
        ring
    }

    /// The capacity.
    pub fn capacity(&self) -> (capacity: usize)
        ensures
            capacity == self.room(),
    {
        self.slots.len()
    }

    /// Appends an item; gives it back when the ring is full.
    pub fn push(&mut self, item: T) -> (outcome: Result<(), T>)
        requires
            old(self).wf(),
        ensures
            final(self).wf(),
            final(self).room() == old(self).room(),
            match outcome {
                Ok(_) => old(self)@.len() < old(self).room() && final(self)@ == old(self)@.push(
                    item,
                ),
                Err(back) => old(self)@.len() == old(self).room() && back == item && final(self)@
                    == old(self)@,
            },
    {
        let capacity: usize = self.slots.len();
        if self.used >= capacity {
            return Err(item);
        }
        let at: usize = if self.used < capacity - self.head {
            self.head + self.used
        } else {
            self.used - (capacity - self.head)
        };
        self.slots.set(at, Some(item));
        self.used = self.used + 1;
        assert(self@ =~= old(self)@.push(item));
        Ok(())
    }

    /// Takes the oldest item out; `None` when the ring is empty.
    pub fn pop(&mut self) -> (item: Option<T>)
        requires
            old(self).wf(),
        ensures
            final(self).wf(),
            final(self).room() == old(self).room(),
            match item {
                Some(x) => old(self)@.len() > 0 && x == old(self)@[0] && final(self)@ == old(
                    self,
                )@.drop_first(),
                None => old(self)@.len() == 0 && final(self)@ == old(self)@,
            },
    {
        if self.used == 0 {
            return None;
        }
        let capacity: usize = self.slots.len();
        let at: usize = self.head;
        assert(slot_of(self.head as int, 0, self.slots@.len() as int) == at);
        let item = take_slot(&mut self.slots, at);
        self.head = if at + 1 == capacity {
            0
        } else {
            at + 1
        };
        self.used = self.used - 1;
        proof {
            let n = self.slots@.len() as int;
            assert forall|i: int| 0 <= i < n implies (#[trigger] self.slots@[slot_of(
                self.head as int,
                i,
                n,
            )] is Some <==> i < self.used) by {
                if i < n - 1 {
                    assert(slot_of(self.head as int, i, n) == slot_of(at as int, i + 1, n));
                    assert(old(self).slots@[slot_of(at as int, i + 1, n)] is Some <==> i + 1
                        < old(self).used);
                } else {
                    assert(slot_of(self.head as int, i, n) == at);
                }
            }
            assert forall|i: int| 0 <= i < self@.len() implies self@[i] == old(
                self,
            )@.drop_first()[i] by {
                assert(slot_of(self.head as int, i, n) == slot_of(at as int, i + 1, n));
            }
            assert(self@ =~= old(self)@.drop_first());
        }
        item
    }

    /// The number of items in the ring.
    pub fn len(&self) -> (count: usize)
        ensures
            count == self@.len(),
    {
        self.used
    }

    /// Whether the ring is empty.
    pub fn is_empty(&self) -> (empty: bool)
        ensures
            empty == (self@.len() == 0),
    {
        self.used == 0
    }
}

/// Takes what a slot holds and leaves it free.
fn take_slot<T>(slots: &mut Vec<Option<T>>, at: usize) -> (item: Option<T>)
    requires
        at < old(slots)@.len(),
    ensures
        item == old(slots)@[at as int],
        final(slots)@ == old(slots)@.update(at as int, None),
{
    slots.push(None);
    let item = slots.swap_remove(at);
    assert(slots@ =~= old(slots)@.update(at as int, None));
    item
}

} // verus!
