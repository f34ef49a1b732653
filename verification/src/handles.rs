//! The table of live machine handles. A raw pointer never crosses the
//! boundary: the host holds an opaque pair of slot index and generation
//! counter. A slot's generation is bumped whenever its occupant is
//! destroyed, so a stale handle — one destroyed before, even if its slot
//! was reused — is rejected by a bounds-checked lookup instead of touching
//! freed memory, and a second destroy of the same handle finds nothing.

use vstd::prelude::*;

verus! {

/// One slot: its current generation and its occupant, if any.
pub struct HandleEntry<T> {
    pub generation: u64,
    pub val: Option<T>,
}

/// The table of live handles.
pub struct HandleTable<T> {
    pub slots: Vec<HandleEntry<T>>,
}

/// Whether the handle `(index, generation)` names a live occupant.
pub open spec fn handle_live<T>(slots: Seq<HandleEntry<T>>, index: usize, generation: u64) -> bool {
    index < slots.len() && slots[index as int].generation == generation && slots[
        index as int
    ].val is Some
}

impl<T> HandleTable<T> {
    /// An empty table.
    pub fn new() -> (t: Self)
        ensures
            t.slots@.len() == 0,
    {
        HandleTable { slots: Vec::new() }
    }

    /// Stores a value and hands out its handle: the first free slot is
    /// reused under that slot's current generation, or a fresh slot is
    /// appended. Every other slot is untouched.
    pub fn insert(&mut self, v: T) -> (h: (usize, u64))
        ensures
            h.0 < final(self).slots@.len(),
            final(self).slots@[h.0 as int].generation == h.1,
            final(self).slots@[h.0 as int].val == Some(v),
            handle_live(final(self).slots@, h.0, h.1),
            old(self).slots@.len() <= final(self).slots@.len() <= old(self).slots@.len() + 1,
            h.0 < old(self).slots@.len() ==> final(self).slots@.len() == old(self).slots@.len()
                && old(self).slots@[h.0 as int].val is None && old(self).slots@[
                h.0 as int
            ].generation == h.1,
            forall|i: int|
                0 <= i < old(self).slots@.len() && i != h.0
                    ==> final(self).slots@[i] == old(self).slots@[i],
    {
        let mut i: usize = 0;
        while i < self.slots.len()
            invariant
                i <= self.slots@.len(),
                forall|j: int| 0 <= j < i ==> self.slots@[j].val is Some,
                self == old(self),
            decreases self.slots@.len() - i,
        {
            if self.slots[i].val.is_none() {
                let generation = self.slots[i].generation;
                self.slots.set(i, HandleEntry { generation, val: Some(v) });
                return (i, generation);
            }
            i = i + 1;
        }
        self.slots.push(HandleEntry { generation: 0, val: Some(v) });
        (self.slots.len() - 1, 0)
    }

    /// Looks a handle up, rejecting a stale index or generation.
    pub fn get(&self, index: usize, generation: u64) -> (r: Option<&T>)
        ensures
            match r {
                Some(v) => handle_live(self.slots@, index, generation) && self.slots@[
                    index as int
                ].val == Some(*v),
                None => !handle_live(self.slots@, index, generation),
            },
    {
        if index >= self.slots.len() {
            return None;
        }
        if self.slots[index].generation != generation {
            return None;
        }
        self.slots[index].val.as_ref()
    }

    /// Removes a live occupant and bumps the slot's generation, so that
    /// the handle just removed — and any earlier handle of this slot — is
    /// stale from here on; a stale handle removes nothing and changes
    /// nothing.
    pub fn remove(&mut self, index: usize, generation: u64) -> (r: Option<T>)
        ensures
            final(self).slots@.len() == old(self).slots@.len(),
            match r {
                Some(v) => handle_live(old(self).slots@, index, generation) && old(self).slots@[
                    index as int
                ].val == Some(v) && final(self).slots@[index as int].val is None
                    && final(self).slots@[index as int].generation != generation,
                None => !handle_live(old(self).slots@, index, generation)
                    && *final(self) == *old(self),
            },
            forall|i: int|
                0 <= i < old(self).slots@.len() && i != index
                    ==> final(self).slots@[i] == old(self).slots@[i],
    {
        if index >= self.slots.len() {
            return None;
        }
        if self.slots[index].generation != generation {
            return None;
        }
        if self.slots[index].val.is_none() {
            return None;
        }
        let next_generation = if generation == u64::MAX {
            0
        } else {
            generation + 1
        };
        let mut entry = HandleEntry { generation: next_generation, val: None };
        self.slots.set_and_swap(index, &mut entry);
        entry.val
    }
}

} // verus!
