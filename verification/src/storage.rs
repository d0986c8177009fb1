//! A component storage: one optional component value per entity slot, kept
//! parallel to the entity arena. Attaching overwrites, detaching is an
//! idempotent no-op, and lookups on componentless slots are simply absent.

use vstd::prelude::*;

verus! {

pub struct Storage<C> {
    data: Vec<Option<C>>,
}

impl<C> View for Storage<C> {
    type V = Seq<Option<C>>;

    closed spec fn view(&self) -> Seq<Option<C>> {
        self.data@
    }
}

impl<C> Storage<C> {
    /// An empty storage, for a store with no slots yet.
    pub fn new() -> (s: Self)
        ensures
            s@ == Seq::<Option<C>>::empty(),
    {
        Storage { data: Vec::new() }
    }

    pub fn len(&self) -> (n: usize)
        ensures
            n == self@.len(),
    {
        self.data.len()
    }

    /// Extends the storage with an empty cell when a new slot is added.
    pub fn push_none(&mut self)
        ensures
            final(self)@ == old(self)@.push(None),
    {
        self.data.push(None);
    }

    /// Present-or-absent lookup; never fails on a componentless slot.
    pub fn get(&self, i: usize) -> (r: Option<&C>)
        requires
            i < self@.len(),
        ensures
            match r {
                Some(c) => self@[i as int] == Some(*c),
                None => self@[i as int] is None,
            },
    {
        self.data[i].as_ref()
    }

    /// Attach-or-detach: overwrites whatever was present before.
    pub fn set(&mut self, i: usize, v: Option<C>)
        requires
            i < old(self)@.len(),
        ensures
            final(self)@ == old(self)@.update(i as int, v),
    {
        self.data[i] = v;
    }

    /// Removes and returns the component, leaving the cell empty.
    pub fn take(&mut self, i: usize) -> (r: Option<C>)
        requires
            i < old(self)@.len(),
        ensures
            r == old(self)@[i as int],
            final(self)@ == old(self)@.update(i as int, None),
    {
        self.data[i].take()
    }

    /// Mutable access to one cell, for in-place component updates.
    pub fn entry_mut(&mut self, i: usize) -> (r: &mut Option<C>)
        requires
            i < old(self)@.len(),
        ensures
            *r == old(self)@[i as int],
            final(self)@ == old(self)@.update(i as int, *final(r)),
    {
        &mut self.data[i]
    }

    /// Empties every cell, keeping the length: a whole component class is
    /// cleared at once (intent sets after their resolution pass).
    pub fn clear_all(&mut self)
        ensures
            final(self)@.len() == old(self)@.len(),
            forall|j: int| 0 <= j < old(self)@.len() ==> final(self)@[j] is None,
    {
        let n = self.data.len();
        let mut i: usize = 0;
        while i < n
            invariant
                n == self.data@.len(),
                i <= n,
                forall|j: int| 0 <= j < i ==> self.data@[j] is None,
            decreases n - i,
        {
            self.data[i] = None;
            i = i + 1;
        }
    }
}

} // verus!
