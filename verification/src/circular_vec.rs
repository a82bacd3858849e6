//! A fixed-capacity ring buffer that overwrites its oldest entry.

use vstd::prelude::*;
use vstd::std_specs::iter::IteratorSpec;
use vstd::std_specs::slice::into_iter_elts;

verus! {

/// What a ring of `capacity` slots holds, oldest first, once `value` has been
/// pushed onto a ring that held `history`.
pub open spec fn history_after_push<T>(history: Seq<T>, capacity: nat, value: T) -> Seq<T> {
    if capacity == 0 {
        history
    } else if history.len() < capacity {
        history.push(value)
    } else {
        history.skip(1).push(value)
    }
}

/// A ring buffer of at most `capacity` values. Once full, each push replaces
/// the oldest value in place.
pub struct RingVec<T> {
    data: Vec<T>,
    size: usize,
    next_push_index: usize,
}

impl<T> RingVec<T> {
    /// The values in slot order, which is the order `iter` yields them in.
    pub closed spec fn slots(&self) -> Seq<T> {
        self.data@
    }

    /// The number of slots the ring was made with.
    pub closed spec fn capacity(&self) -> nat {
        self.size as nat
    }

    /// The slot that the next push writes.
    pub closed spec fn cursor(&self) -> nat {
        self.next_push_index as nat
    }

    /// The ring never holds more than its capacity; while it is filling, the
    /// cursor is the first free slot, and afterwards it stays inside the ring.
    pub closed spec fn wf(&self) -> bool {
        &&& self.data@.len() <= self.size
        &&& self.data@.len() < self.size ==> self.next_push_index == self.data@.len()
        &&& self.data@.len() == self.size ==> self.next_push_index < self.size || self.size == 0
        &&& self.size == 0 ==> self.next_push_index == 0
    }

    /// The values in the order they were pushed, oldest first.
    pub open spec fn history(&self) -> Seq<T> {
        if self.slots().len() < self.capacity() {
            self.slots()
        } else {
            self.slots().subrange(self.cursor() as int, self.slots().len() as int)
                + self.slots().subrange(0, self.cursor() as int)
        }
    }

    /// An empty ring of `size` slots.
    pub fn new(size: usize) -> (ring: Self)
        ensures
            ring.wf(),
            ring.capacity() == size,
            ring.cursor() == 0,
            ring.slots() == Seq::<T>::empty(),
    {
        RingVec { data: Vec::with_capacity(size), size, next_push_index: 0 }
    }

    /// Stores `value` in the slot under the cursor and moves the cursor on by
    /// one, wrapping at the capacity. A ring of no slots stays empty.
    pub fn push(&mut self, value: T)
        requires
            old(self).wf(),
        ensures
            final(self).wf(),
            final(self).capacity() == old(self).capacity(),
            final(self).slots() == (if old(self).capacity() == 0 {
                old(self).slots()
            } else if old(self).slots().len() < old(self).capacity() {
                old(self).slots().push(value)
            } else {
                old(self).slots().update(old(self).cursor() as int, value)
            }),
            final(self).cursor() == (if old(self).capacity() == 0 {
                old(self).cursor()
            } else if old(self).cursor() + 1 == old(self).capacity() {
                0
            } else {
                old(self).cursor() + 1
            }),
            final(self).history() == history_after_push(
                old(self).history(),
                old(self).capacity(),
                value,
            ),
    {
        if self.size == 0 {
            return ;
        }
        if self.next_push_index >= self.data.len() {
            self.data.push(value);
        } else {
            self.data[self.next_push_index] = value;
        }
        let next: usize = self.next_push_index + 1;
        self.next_push_index = if next == self.size {
            0
        } else {
            next
        };
        proof {
            Self::lemma_push_history(*old(self), *self, value);
        }
    }

    /// Pushing keeps every value but the oldest of a full ring, in order, and
    /// puts the new value last.
    proof fn lemma_push_history(before: Self, after: Self, value: T)
        requires
            before.wf(),
            before.size > 0,
            after.size == before.size,
            after.next_push_index == (if before.next_push_index + 1 == before.size {
                0
            } else {
                before.next_push_index + 1
            }),
            before.data@.len() < before.size ==> after.data@ == before.data@.push(value),
            before.data@.len() == before.size ==> after.data@ == before.data@.update(
                before.next_push_index as int,
                value,
            ),
        ensures
            after.history() == history_after_push(before.history(), before.capacity(), value),
    {
        if before.data@.len() < before.size {
            assert(after.history() =~= before.data@.push(value));
        } else {
            assert(after.history() =~= before.history().skip(1).push(value));
        }
    }

    /// A ring never holds more than its capacity. While it is filling, the
    /// cursor is the first free slot; once it is full, the cursor is the slot
    /// of the oldest value.
    pub proof fn lemma_shape(&self)
        requires
            self.wf(),
        ensures
            self.slots().len() <= self.capacity(),
            self.cursor() <= self.slots().len(),
            self.slots().len() < self.capacity() ==> self.cursor() == self.slots().len(),
            self.slots().len() == self.capacity() && self.capacity() > 0 ==> self.cursor()
                < self.capacity(),
            self.history().len() == self.slots().len(),
    {
    }

    /// The number of values held.
    pub fn len(&self) -> (n: usize)
        ensures
            n == self.slots().len(),
    {
        self.data.len()
    }

    /// The value in slot `index`, if the ring has filled that slot.
    pub fn get(&self, index: usize) -> (value: Option<&T>)
        ensures
            index < self.slots().len() ==> value == Some(&self.slots()[index as int]),
            index >= self.slots().len() ==> value.is_none(),
    {
        if index < self.data.len() {
            Some(&self.data[index])
        } else {
            None
        }
    }

    /// The values in slot order.
    pub fn iter(&self) -> (iter: std::slice::Iter<'_, T>)
        ensures
            into_iter_elts(iter) == self.slots(),
            IteratorSpec::remaining(&iter).unref() == self.slots(),
            IteratorSpec::decrease(&iter) is Some,
            IteratorSpec::initial_value_relation(&iter, &iter),
    {
        self.data.iter()
    }
}

} // verus!
