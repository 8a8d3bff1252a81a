//! A table of slots under small numbers, as a guest's descriptor table is
//! laid out: the number is the index.
use vstd::prelude::*;

verus! {

/// How many slots a table has at most. A number at or above it has no slot.
pub const MAX_SLOTS: usize = 0x10_0000;

/// A table under numbers below [`MAX_SLOTS`].
#[derive(Debug)]
pub struct SlotTable<V> {
    slots: Vec<Option<V>>,
}

impl<V: Copy> View for SlotTable<V> {
    type V = Map<u32, V>;

    closed spec fn view(&self) -> Map<u32, V> {
        Map::new(
            |key: u32| (key as int) < self.slots@.len() && self.slots@[key as int].is_some(),
            |key: u32| self.slots@[key as int].unwrap(),
        )
    }
}

impl<V: Copy> SlotTable<V> {
    /// The table has no more slots than it may.
    pub closed spec fn well_formed(&self) -> bool {
        self.slots@.len() <= MAX_SLOTS
    }

    /// A number above every number in use.
    pub closed spec fn spec_bound(&self) -> nat {
        self.slots@.len()
    }

    /// Every number in use lies below the bound, and the bound below the
    /// limit.
    pub proof fn lemma_bound(&self)
        requires
            self.well_formed(),
        ensures
            self.spec_bound() <= MAX_SLOTS,
            forall|key: u32| self@.contains_key(key) ==> (key as nat) < self.spec_bound(),
    {
    }

    /// An empty table.
    pub fn new() -> (table: Self)
        ensures
            table.well_formed(),
            table@ == Map::<u32, V>::empty(),
            table.spec_bound() == 0,
    {
        let table = SlotTable { slots: Vec::new() };
        assert(table@ =~= Map::<u32, V>::empty());
        table
    }

    /// A number above every number in use.
    pub fn bound(&self) -> (bound: usize)
        requires
            self.well_formed(),
        ensures
            bound == self.spec_bound(),
            bound <= MAX_SLOTS,
    {
        self.slots.len()
    }

    /// What stands under a number.
    pub fn get(&self, key: u32) -> (value: Option<V>)
        ensures
            value == (if self@.contains_key(key) {
                Some(self@[key])
            } else {
                None::<V>
            }),
    {
        let at = key as usize;
        if at < self.slots.len() {
            self.slots[at]
        } else {
            None
        }
    }

    /// Puts a value under a number, in place of what stood there. A number
    /// that has no slot is refused.
    pub fn insert(&mut self, key: u32, value: V) -> (placed: bool)
        requires
            old(self).well_formed(),
        ensures
            final(self).well_formed(),
            placed == ((key as int) < MAX_SLOTS),
            placed ==> final(self)@ == old(self)@.insert(key, value),
            !placed ==> final(self)@ == old(self)@,
            !placed ==> final(self).spec_bound() == old(self).spec_bound(),
            final(self).spec_bound() >= old(self).spec_bound(),
    {
        let at = key as usize;
        if at >= MAX_SLOTS {
            return false;
        }
        while self.slots.len() <= at
            invariant
                at < MAX_SLOTS,
                self.slots@.len() <= MAX_SLOTS,
                self.slots@.len() >= old(self).slots@.len(),
                self@ == old(self)@,
            decreases at + 1 - self.slots@.len(),
        {
            let ghost before = *self;
            self.slots.push(None);
            assert(self@ =~= before@);
        }
        let ghost before = *self;
        self.slots.set(at, Some(value));
        assert(self@ =~= before@.insert(key, value));
        true
    }

    /// Takes away what stands under a number.
    pub fn remove(&mut self, key: u32)
        requires
            old(self).well_formed(),
        ensures
            final(self).well_formed(),
            final(self)@ == old(self)@.remove(key),
            final(self).spec_bound() == old(self).spec_bound(),
    {
        let at = key as usize;
        if at < self.slots.len() {
            self.slots.set(at, None);
        }
        assert(self@ =~= old(self)@.remove(key));
    }
}

} // verus!
