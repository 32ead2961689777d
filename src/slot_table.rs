//! A fixed-capacity table of slots addressed by a small integer handle.

use vstd::prelude::*;

verus! {

/// Slots `0 .. capacity`; a handle names an occupied slot until that slot
/// is emptied, and only then may be handed out again.
pub struct SlotTable<T> {
    slots: Vec<Option<T>>,
}

impl<T> SlotTable<T> {
    /// The occupied slots, by handle.
    pub closed spec fn view(&self) -> Map<int, T> {
        Map::new(
            |h: int| 0 <= h < self.slots@.len() && self.slots@[h] is Some,
            |h: int| self.slots@[h]->0,
        )
    }

    pub closed spec fn capacity(&self) -> nat {
        self.slots@.len()
    }

    /// A table of `capacity` empty slots.
    pub fn with_capacity(capacity: usize) -> (r: SlotTable<T>)
        ensures
            r.view() == Map::<int, T>::empty(),
            r.capacity() == capacity,
    {
        let mut slots: Vec<Option<T>> = Vec::new();
        let mut i: usize = 0;
        while i < capacity
            invariant
                i <= capacity,
                slots@.len() == i,
                forall|j: int| 0 <= j < i ==> slots@[j] is None,
            decreases capacity - i,
        {
            slots.push(None);
            i = i + 1;
        }
        let r = SlotTable { slots };
        assert(r.view() =~= Map::<int, T>::empty());
        r
    }

    pub fn contains(&self, h: usize) -> (r: bool)
        ensures
            r == self.view().contains_key(h as int),
            r ==> h < self.capacity(),
    {
        h < self.slots.len() && self.slots[h].is_some()
    }

    pub fn get(&self, h: usize) -> (r: Option<&T>)
        ensures
            r is Some == self.view().contains_key(h as int),
            r matches Some(v) ==> *v == self.view()[h as int],
    {
        if h < self.slots.len() {
            self.slots[h].as_ref()
        } else {
            None
        }
    }

    /// Empties slot `h` and hands out what it held.
    pub fn take(&mut self, h: usize) -> (r: Option<T>)
        ensures
            r is Some == old(self).view().contains_key(h as int),
            r is Some ==> h < old(self).capacity(),
            r matches Some(v) ==> v == old(self).view()[h as int],
            final(self).view() == old(self).view().remove(h as int),
            final(self).capacity() == old(self).capacity(),
    {
        if h >= self.slots.len() {
            assert(old(self).view().remove(h as int) =~= old(self).view());
            return None;
        }
        let mut out: Option<T> = None;
        core::mem::swap(&mut out, &mut self.slots[h]);
        assert(final(self).view() =~= old(self).view().remove(h as int));
        out
    }

    /// Fills the empty slot `h`.
    pub fn insert_at(&mut self, h: usize, v: T)
        requires
            h < old(self).capacity(),
            !old(self).view().contains_key(h as int),
        ensures
            final(self).view() == old(self).view().insert(h as int, v),
            final(self).capacity() == old(self).capacity(),
    {
        self.slots.set(h, Some(v));
        assert(final(self).view() =~= old(self).view().insert(h as int, v));
    }

    /// The lowest empty slot, if any.
    pub fn firstVacant(&self) -> (r: Option<usize>)
        ensures
            match r {
                Some(h) => h < self.capacity() && !self.view().contains_key(h as int),
                None => forall|h: int| 0 <= h < self.capacity() ==> self.view().contains_key(h),
            },
    {
        let mut i: usize = 0;
        while i < self.slots.len()
            invariant
                i <= self.slots@.len(),
                forall|h: int| 0 <= h < i ==> self.view().contains_key(h),
            decreases self.slots@.len() - i,
        {
            if self.slots[i].is_none() {
                return Some(i);
            }
            i = i + 1;
        }
        None
    }

    /// Handles of the occupied slots, in increasing order.
    pub fn handles(&self) -> (r: Vec<usize>)
        ensures
            forall|k: int| 0 <= k < r@.len() ==> self.view().contains_key(r@[k] as int),
            forall|h: int| self.view().contains_key(h) ==> r@.contains(h as usize),
            forall|a: int, b: int| 0 <= a < b < r@.len() ==> r@[a] < r@[b],
    {
        let mut r: Vec<usize> = Vec::new();
        let mut i: usize = 0;
        while i < self.slots.len()
            invariant
                i <= self.slots@.len(),
                forall|k: int| 0 <= k < r@.len() ==> self.view().contains_key(r@[k] as int),
                forall|k: int| 0 <= k < r@.len() ==> r@[k] < i,
                forall|h: int| 0 <= h < i && self.view().contains_key(h) ==> r@.contains(h as usize),
                forall|a: int, b: int| 0 <= a < b < r@.len() ==> r@[a] < r@[b],
            decreases self.slots@.len() - i,
        {
            if self.slots[i].is_some() {
                let ghost before = r@;
                r.push(i);
                proof {
                    assert forall|h: int|
                        0 <= h < i + 1 && self.view().contains_key(h) implies r@.contains(
                        h as usize,
                    ) by {
                        if h < i {
                            let k = choose|k: int| 0 <= k < before.len() && before[k] == h as usize;
                            assert(r@[k] == h as usize);
                        } else {
                            assert(r@[r@.len() - 1] == h as usize);
                        }
                    }
                }
            }
            i = i + 1;
        }
        r
    }

    /// Whether no slot is occupied.
    pub fn is_empty(&self) -> (r: bool)
        ensures
            r == (self.view() == Map::<int, T>::empty()),
    {
        let mut i: usize = 0;
        while i < self.slots.len()
            invariant
                i <= self.slots@.len(),
                forall|h: int| 0 <= h < i ==> !self.view().contains_key(h),
            decreases self.slots@.len() - i,
        {
            if self.slots[i].is_some() {
                assert(self.view().contains_key(i as int));
                assert(self.view().dom().contains(i as int));
                return false;
            }
            i = i + 1;
        }
        assert(self.view() =~= Map::<int, T>::empty());
        true
    }

    /// Empties every slot.
    pub fn clear(&mut self)
        ensures
            final(self).view() == Map::<int, T>::empty(),
            final(self).capacity() == old(self).capacity(),
    {
        let mut i: usize = 0;
        while i < self.slots.len()
            invariant
                i <= self.slots@.len(),
                self.slots@.len() == old(self).slots@.len(),
                forall|h: int| 0 <= h < i ==> self.slots@[h] is None,
            decreases self.slots@.len() - i,
        {
            self.slots.set(i, None);
            i = i + 1;
        }
        assert(self.view() =~= Map::<int, T>::empty());
    }
}

} // verus!
