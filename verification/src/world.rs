//! The entity/component store: an arena of (index, generation) slots plus one
//! parallel storage per component type. Creation may revive a free slot under
//! a bumped generation; destruction is deferred (a `Dying` slot keeps its
//! components until the maintenance phase reclaims them), so in-flight
//! iteration within a turn is never invalidated.

use vstd::prelude::*;

use crate::components::BlocksTile;
use crate::components::CombatStats;
use crate::components::Consumable;
use crate::components::InBackpack;
use crate::components::InflictsDamage;
use crate::components::Item;
use crate::components::Monster;
use crate::components::MovementSpeed;
use crate::components::Name;
use crate::components::Player;
use crate::components::Position;
use crate::components::ProvidesHealing;
use crate::components::Ranged;
use crate::components::Renderable;
use crate::components::SerializationHelper;
use crate::components::SerializeMe;
use crate::components::SufferDamage;
use crate::components::Viewshed;
use crate::components::WantsToDropItem;
use crate::components::WantsToMelee;
use crate::components::WantsToPickupItem;
use crate::components::WantsToUseItem;
use crate::entity::Entity;
use crate::entity::Slot;
use crate::entity::SlotState;
use crate::storage::Storage;

verus! {

pub struct World {
    pub slots: Vec<Slot>,
    pub positions: Storage<Position>,
    pub renderables: Storage<Renderable>,
    pub names: Storage<Name>,
    pub blockers: Storage<BlocksTile>,
    pub items: Storage<Item>,
    pub backpacks: Storage<InBackpack>,
    pub pickup_intents: Storage<WantsToPickupItem>,
    pub healing: Storage<ProvidesHealing>,
    pub consumables: Storage<Consumable>,
    pub use_intents: Storage<WantsToUseItem>,
    pub drop_intents: Storage<WantsToDropItem>,
    pub speeds: Storage<MovementSpeed>,
    pub combat_stats: Storage<CombatStats>,
    pub melee_intents: Storage<WantsToMelee>,
    pub ranged: Storage<Ranged>,
    pub inflicts: Storage<InflictsDamage>,
    pub suffering: Storage<SufferDamage>,
    pub players: Storage<Player>,
    pub viewsheds: Storage<Viewshed>,
    pub monsters: Storage<Monster>,
    pub markers: Storage<SerializeMe>,
    pub helpers: Storage<SerializationHelper>,
}

impl World {
    /// Number of slots in the arena.
    pub open spec fn n(self) -> int {
        self.slots@.len() as int
    }

    /// Every storage covers every slot, and free slots carry no components
    /// (so a revived entity starts fresh).
    pub open spec fn wf(self) -> bool {
        &&& self.positions@.len() == self.n()
        &&& self.renderables@.len() == self.n()
        &&& self.names@.len() == self.n()
        &&& self.blockers@.len() == self.n()
        &&& self.items@.len() == self.n()
        &&& self.backpacks@.len() == self.n()
        &&& self.pickup_intents@.len() == self.n()
        &&& self.healing@.len() == self.n()
        &&& self.consumables@.len() == self.n()
        &&& self.use_intents@.len() == self.n()
        &&& self.drop_intents@.len() == self.n()
        &&& self.speeds@.len() == self.n()
        &&& self.combat_stats@.len() == self.n()
        &&& self.melee_intents@.len() == self.n()
        &&& self.ranged@.len() == self.n()
        &&& self.inflicts@.len() == self.n()
        &&& self.suffering@.len() == self.n()
        &&& self.players@.len() == self.n()
        &&& self.viewsheds@.len() == self.n()
        &&& self.monsters@.len() == self.n()
        &&& self.markers@.len() == self.n()
        &&& self.helpers@.len() == self.n()
        &&& forall|j: int| 0 <= j < self.n() && self.slots@[j].state is Free ==> self.no_comps_at(j)
    }

    /// Slot `j` carries no components at all.
    pub open spec fn no_comps_at(self, j: int) -> bool {
        &&& self.positions@[j] is None
        &&& self.renderables@[j] is None
        &&& self.names@[j] is None
        &&& self.blockers@[j] is None
        &&& self.items@[j] is None
        &&& self.backpacks@[j] is None
        &&& self.pickup_intents@[j] is None
        &&& self.healing@[j] is None
        &&& self.consumables@[j] is None
        &&& self.use_intents@[j] is None
        &&& self.drop_intents@[j] is None
        &&& self.speeds@[j] is None
        &&& self.combat_stats@[j] is None
        &&& self.melee_intents@[j] is None
        &&& self.ranged@[j] is None
        &&& self.inflicts@[j] is None
        &&& self.suffering@[j] is None
        &&& self.players@[j] is None
        &&& self.viewsheds@[j] is None
        &&& self.monsters@[j] is None
        &&& self.markers@[j] is None
        &&& self.helpers@[j] is None
    }

    /// The components of slot `j` are the same in `a` and `b` (values behind
    /// `Vec`- or `String`-carrying components compared by contents).
    pub open spec fn comps_eq_at(a: World, b: World, j: int) -> bool {
        &&& a.positions@[j] == b.positions@[j]
        &&& a.renderables@[j] == b.renderables@[j]
        &&& a.names@[j] == b.names@[j]
        &&& a.blockers@[j] == b.blockers@[j]
        &&& a.items@[j] == b.items@[j]
        &&& a.backpacks@[j] == b.backpacks@[j]
        &&& a.pickup_intents@[j] == b.pickup_intents@[j]
        &&& a.healing@[j] == b.healing@[j]
        &&& a.consumables@[j] == b.consumables@[j]
        &&& a.use_intents@[j] == b.use_intents@[j]
        &&& a.drop_intents@[j] == b.drop_intents@[j]
        &&& a.speeds@[j] == b.speeds@[j]
        &&& a.combat_stats@[j] == b.combat_stats@[j]
        &&& a.melee_intents@[j] == b.melee_intents@[j]
        &&& a.ranged@[j] == b.ranged@[j]
        &&& a.inflicts@[j] == b.inflicts@[j]
        &&& a.suffering@[j] == b.suffering@[j]
        &&& a.players@[j] == b.players@[j]
        &&& a.viewsheds@[j] == b.viewsheds@[j]
        &&& a.monsters@[j] == b.monsters@[j]
        &&& a.markers@[j] == b.markers@[j]
        &&& a.helpers@[j] == b.helpers@[j]
    }

    /// Every storage except the movement limiters is the same in `a` and
    /// `b`, as whole sequences.
    pub open spec fn comps_eq_except_speeds(a: World, b: World) -> bool {
        &&& a.positions@ == b.positions@
        &&& a.renderables@ == b.renderables@
        &&& a.names@ == b.names@
        &&& a.blockers@ == b.blockers@
        &&& a.items@ == b.items@
        &&& a.backpacks@ == b.backpacks@
        &&& a.pickup_intents@ == b.pickup_intents@
        &&& a.healing@ == b.healing@
        &&& a.consumables@ == b.consumables@
        &&& a.use_intents@ == b.use_intents@
        &&& a.drop_intents@ == b.drop_intents@
        &&& a.combat_stats@ == b.combat_stats@
        &&& a.melee_intents@ == b.melee_intents@
        &&& a.ranged@ == b.ranged@
        &&& a.inflicts@ == b.inflicts@
        &&& a.suffering@ == b.suffering@
        &&& a.players@ == b.players@
        &&& a.viewsheds@ == b.viewsheds@
        &&& a.monsters@ == b.monsters@
        &&& a.markers@ == b.markers@
        &&& a.helpers@ == b.helpers@
    }

    /// The slot at index `i` is in the world (alive or dying, not free).
    pub open spec fn present_at(self, i: int) -> bool {
        0 <= i < self.n() && !(self.slots@[i].state is Free)
    }

    pub open spec fn alive_at(self, i: int) -> bool {
        0 <= i < self.n() && self.slots@[i].state is Alive
    }

    /// The current handle for slot `i`.
    pub open spec fn handle(self, i: int) -> Entity {
        Entity { index: i as usize, gen: self.slots@[i].gen }
    }

    /// The handle matches its slot's generation and the slot is in the world:
    /// lookups through a stale or freed handle are simply absent.
    pub open spec fn valid(self, e: Entity) -> bool {
        e.index < self.n() && self.slots@[e.index as int].gen == e.gen && self.present_at(
            e.index as int,
        )
    }

    pub open spec fn alive(self, e: Entity) -> bool {
        self.valid(e) && self.alive_at(e.index as int)
    }

    /// An empty store.
    pub fn new() -> (w: World)
        ensures
            w.wf(),
            w.n() == 0,
    {
        World {
            slots: Vec::new(),
            positions: Storage::new(),
            renderables: Storage::new(),
            names: Storage::new(),
            blockers: Storage::new(),
            items: Storage::new(),
            backpacks: Storage::new(),
            pickup_intents: Storage::new(),
            healing: Storage::new(),
            consumables: Storage::new(),
            use_intents: Storage::new(),
            drop_intents: Storage::new(),
            speeds: Storage::new(),
            combat_stats: Storage::new(),
            melee_intents: Storage::new(),
            ranged: Storage::new(),
            inflicts: Storage::new(),
            suffering: Storage::new(),
            players: Storage::new(),
            viewsheds: Storage::new(),
            monsters: Storage::new(),
            markers: Storage::new(),
            helpers: Storage::new(),
        }
    }

    /// Whether `e` is currently in the world under this exact handle.
    pub fn is_valid(&self, e: Entity) -> (r: bool)
        requires
            self.wf(),
        ensures
            r == self.valid(e),
    {
        if e.index < self.slots.len() {
            let s = self.slots[e.index];
            s.gen == e.gen && !matches!(s.state, SlotState::Free)
        } else {
            false
        }
    }

    pub fn is_alive(&self, e: Entity) -> (r: bool)
        requires
            self.wf(),
        ensures
            r == self.alive(e),
    {
        if e.index < self.slots.len() {
            let s = self.slots[e.index];
            s.gen == e.gen && matches!(s.state, SlotState::Alive)
        } else {
            false
        }
    }

    /// Creates a fresh entity with no components: revives the first free slot
    /// under a bumped generation, or appends a new slot.
    pub fn create(&mut self) -> (e: Entity)
        requires
            old(self).wf(),
        ensures
            final(self).wf(),
            final(self).alive(e),
            e.index < final(self).n(),
            old(self).n() <= final(self).n() <= old(self).n() + 1,
            final(self).no_comps_at(e.index as int),
            // every other slot, and its components, is untouched
            forall|j: int|
                0 <= j < old(self).n() && j != e.index ==> final(self).slots@[j]
                    == old(self).slots@[j],
            forall|j: int|
                0 <= j < old(self).n() && j != e.index ==> World::comps_eq_at(
                    *old(self),
                    *final(self),
                    j,
                ),
            // a revived slot was free; an appended slot is brand new
            e.index < old(self).n() ==> final(self).n() == old(self).n()
                && old(self).slots@[e.index as int].state is Free,
            e.index == old(self).n() ==> final(self).n() == old(self).n() + 1 && e.gen == 0,
    {
        let n = self.slots.len();
        let mut i: usize = 0;
        while i < n
            invariant
                old(self).wf(),
                *self == *old(self),
                n == self.slots@.len(),
                i <= n,
            decreases n - i,
        {
            let s = self.slots[i];
            if matches!(s.state, SlotState::Free) && s.gen < u64::MAX {
                self.slots[i] = Slot { gen: s.gen + 1, state: SlotState::Alive };
                proof {
                    assert(old(self).no_comps_at(i as int));
                    assert forall|j: int|
                        0 <= j < self.n() && self.slots@[j].state is Free implies self.no_comps_at(
                        j,
                    ) by {
                        assert(old(self).slots@[j].state is Free);
                        assert(old(self).no_comps_at(j));
                    }
                }
                return Entity { index: i, gen: s.gen + 1 };
            }
            i = i + 1;
        }
        self.slots.push(Slot { gen: 0, state: SlotState::Alive });
        self.positions.push_none();
        self.renderables.push_none();
        self.names.push_none();
        self.blockers.push_none();
        self.items.push_none();
        self.backpacks.push_none();
        self.pickup_intents.push_none();
        self.healing.push_none();
        self.consumables.push_none();
        self.use_intents.push_none();
        self.drop_intents.push_none();
        self.speeds.push_none();
        self.combat_stats.push_none();
        self.melee_intents.push_none();
        self.ranged.push_none();
        self.inflicts.push_none();
        self.suffering.push_none();
        self.players.push_none();
        self.viewsheds.push_none();
        self.monsters.push_none();
        self.markers.push_none();
        self.helpers.push_none();
        proof {
            assert forall|j: int|
                0 <= j < self.n() && self.slots@[j].state is Free implies self.no_comps_at(j) by {
                assert(old(self).slots@[j].state is Free);
                assert(old(self).no_comps_at(j));
            }
            assert(self.no_comps_at(n as int));
        }
        Entity { index: n, gen: 0 }
    }

    /// Marks an entity for removal. Deferred: the slot keeps its components
    /// until `maintain` runs. Idempotent, and a no-op on a stale handle.
    pub fn destroy(&mut self, e: Entity)
        requires
            old(self).wf(),
        ensures
            final(self).wf(),
            final(self).n() == old(self).n(),
            old(self).alive(e) ==> final(self).slots@ == old(self).slots@.update(
                e.index as int,
                Slot { gen: e.gen, state: SlotState::Dying },
            ),
            !old(self).alive(e) ==> *final(self) == *old(self),
            forall|j: int| 0 <= j < old(self).n() ==> World::comps_eq_at(*old(self), *final(self), j),
            final(self).positions@ == old(self).positions@,
            final(self).renderables@ == old(self).renderables@,
            final(self).names@ == old(self).names@,
            final(self).blockers@ == old(self).blockers@,
            final(self).items@ == old(self).items@,
            final(self).backpacks@ == old(self).backpacks@,
            final(self).pickup_intents@ == old(self).pickup_intents@,
            final(self).healing@ == old(self).healing@,
            final(self).consumables@ == old(self).consumables@,
            final(self).use_intents@ == old(self).use_intents@,
            final(self).drop_intents@ == old(self).drop_intents@,
            final(self).speeds@ == old(self).speeds@,
            final(self).combat_stats@ == old(self).combat_stats@,
            final(self).melee_intents@ == old(self).melee_intents@,
            final(self).ranged@ == old(self).ranged@,
            final(self).inflicts@ == old(self).inflicts@,
            final(self).suffering@ == old(self).suffering@,
            final(self).players@ == old(self).players@,
            final(self).viewsheds@ == old(self).viewsheds@,
            final(self).monsters@ == old(self).monsters@,
            final(self).markers@ == old(self).markers@,
            final(self).helpers@ == old(self).helpers@,
    {
        if e.index < self.slots.len() {
            let s = self.slots[e.index];
            if s.gen == e.gen && matches!(s.state, SlotState::Alive) {
                self.slots[e.index] = Slot { gen: e.gen, state: SlotState::Dying };
                proof {
                    assert forall|j: int|
                        0 <= j < self.n() && self.slots@[j].state is Free implies self.no_comps_at(
                        j,
                    ) by {
                        assert(old(self).slots@[j].state is Free);
                        assert(old(self).no_comps_at(j));
                    }
                }
            }
        }
    }

    /// Reclaims slot `i` if it is dying: drops all its components and frees
    /// it for reuse. Any other slot state is left untouched.
    fn reclaim_slot(&mut self, i: usize)
        requires
            old(self).wf(),
            i < old(self).n(),
        ensures
            final(self).wf(),
            final(self).n() == old(self).n(),
            old(self).slots@[i as int].state is Dying ==> final(self).slots@[i as int]
                == (Slot { gen: old(self).slots@[i as int].gen, state: SlotState::Free })
                && final(self).no_comps_at(i as int),
            !(old(self).slots@[i as int].state is Dying) ==> *final(self) == *old(self),
            forall|j: int|
                0 <= j < old(self).n() && j != i ==> final(self).slots@[j] == old(self).slots@[j]
                    && World::comps_eq_at(*old(self), *final(self), j),
    {
        let s = self.slots[i];
        if matches!(s.state, SlotState::Dying) {
            self.slots[i] = Slot { gen: s.gen, state: SlotState::Free };
            self.positions.set(i, None);
            self.renderables.set(i, None);
            self.names.set(i, None);
            self.blockers.set(i, None);
            self.items.set(i, None);
            self.backpacks.set(i, None);
            self.pickup_intents.set(i, None);
            self.healing.set(i, None);
            self.consumables.set(i, None);
            self.use_intents.set(i, None);
            self.drop_intents.set(i, None);
            self.speeds.set(i, None);
            self.combat_stats.set(i, None);
            self.melee_intents.set(i, None);
            self.ranged.set(i, None);
            self.inflicts.set(i, None);
            self.suffering.set(i, None);
            self.players.set(i, None);
            self.viewsheds.set(i, None);
            self.monsters.set(i, None);
            self.markers.set(i, None);
            self.helpers.set(i, None);
            proof {
                assert(self.no_comps_at(i as int));
                assert forall|j: int|
                    0 <= j < self.n() && self.slots@[j].state is Free implies self.no_comps_at(
                    j,
                ) by {
                    if j != i {
                        assert(old(self).slots@[j].state is Free);
                        assert(old(self).no_comps_at(j));
                    }
                }
            }
        }
    }

    /// The maintenance phase: reclaims every dying slot, dropping all its
    /// components and freeing it for reuse. Everything else is untouched.
    #[verifier::loop_isolation(false)]
    pub fn maintain(&mut self)
        requires
            old(self).wf(),
        ensures
            final(self).wf(),
            final(self).n() == old(self).n(),
            forall|j: int|
                #![trigger old(self).slots@[j]]
                0 <= j < old(self).n() && old(self).slots@[j].state is Dying ==> final(self).slots@[j]
                    == (Slot { gen: old(self).slots@[j].gen, state: SlotState::Free })
                    && final(self).no_comps_at(j),
            forall|j: int|
                #![trigger old(self).slots@[j]]
                0 <= j < old(self).n() && !(old(self).slots@[j].state is Dying)
                    ==> final(self).slots@[j] == old(self).slots@[j] && World::comps_eq_at(
                    *old(self),
                    *final(self),
                    j,
                ),
            maintain_rel(*old(self), *final(self)),
    {
        let ghost w0 = *old(self);
        let n = self.slots.len();
        let mut i: usize = 0;
        while i < n
            invariant
                n == w0.n(),
                self.wf(),
                self.n() == n,
                i <= n,
                forall|j: int| #![trigger w0.slots@[j]]
                    0 <= j < i && w0.slots@[j].state is Dying ==> self.slots@[j] == (Slot {
                        gen: w0.slots@[j].gen,
                        state: SlotState::Free,
                    }) && self.no_comps_at(j),
                forall|j: int| #![trigger w0.slots@[j]]
                    0 <= j < n && (i <= j || !(w0.slots@[j].state is Dying)) ==> self.slots@[j]
                        == w0.slots@[j] && World::comps_eq_at(w0, *self, j),
            decreases n - i,
        {
            let ghost pre = *self;
            self.reclaim_slot(i);
            proof {
                assert forall|j: int|
                    0 <= j < i + 1 && w0.slots@[j].state is Dying implies self.slots@[j] == (Slot {
                    gen: w0.slots@[j].gen,
                    state: SlotState::Free,
                }) && self.no_comps_at(j) by {
                    if j < i {
                        assert(pre.slots@[j] == (Slot {
                            gen: w0.slots@[j].gen,
                            state: SlotState::Free,
                        }) && pre.no_comps_at(j));
                        assert(World::comps_eq_at(pre, *self, j));
                    } else {
                        assert(pre.slots@[j] == w0.slots@[j]);
                    }
                }
                assert forall|j: int|
                    0 <= j < n && (i + 1 <= j || !(w0.slots@[j].state is Dying))
                    implies self.slots@[j] == w0.slots@[j] && World::comps_eq_at(
                    w0,
                    *self,
                    j,
                ) by {
                    if j != i {
                        assert(pre.slots@[j] == w0.slots@[j]);
                        assert(World::comps_eq_at(w0, pre, j));
                        assert(World::comps_eq_at(pre, *self, j));
                    } else {
                        assert(pre.slots@[j] == w0.slots@[j]);
                        assert(!(pre.slots@[j].state is Dying));
                        assert(*self == pre);
                    }
                }
            }
            i = i + 1;
        }
    }
}

/// Everything the maintenance phase guarantees, as one relation between
/// the before and after stores (its contract, verbatim).
pub open spec fn maintain_rel(w0: World, w1: World) -> bool {
    &&& (w1.wf())
    &&& (w1.n() == w0.n())
    &&& (forall|j: int|
                #![trigger w0.slots@[j]]
                0 <= j < w0.n() && w0.slots@[j].state is Dying ==> w1.slots@[j]
                    == (Slot { gen: w0.slots@[j].gen, state: SlotState::Free })
                    && w1.no_comps_at(j))
    &&& (forall|j: int|
                #![trigger w0.slots@[j]]
                0 <= j < w0.n() && !(w0.slots@[j].state is Dying)
                    ==> w1.slots@[j] == w0.slots@[j] && World::comps_eq_at(
                    w0,
                    w1,
                    j,
                ))
}

} // verus!
