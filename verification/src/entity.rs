//! Entity handles: an opaque (index, generation) pair. The generation keeps a
//! stale handle to a destroyed entity from resolving to a reused slot.

use vstd::prelude::*;

verus! {

/// A handle to a game object. Carries no data of its own; components are
/// attached to it in the store.
#[derive(Clone, Copy, PartialEq, Eq, Structural, Debug, Hash)]
pub struct Entity {
    pub index: usize,
    pub gen: u64,
}

/// Lifecycle of a store slot. `Dying` is the deferred-destruction state: the
/// entity keeps its components until the maintenance phase reclaims them.
#[derive(Clone, Copy, PartialEq, Eq, Structural, Debug)]
pub enum SlotState {
    Alive,
    Dying,
    Free,
}

/// One slot of the entity arena.
#[derive(Clone, Copy, PartialEq, Eq, Structural, Debug)]
pub struct Slot {
    pub gen: u64,
    pub state: SlotState,
}

} // verus!
