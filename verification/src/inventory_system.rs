//! The inventory intent pipeline: three independent passes per turn.
//! Collection moves a picked-up item from the map into a backpack; use
//! applies healing and destroys consumables (deferred); drop puts an item
//! back on the map at its dropper's cell. Each pass consumes and clears its
//! whole intent set, whether or not every individual intent succeeded, and a
//! stale reference makes the affected intent a silent no-op.

use vstd::prelude::*;

use crate::components::CombatStats;
use crate::components::InBackpack;
use crate::components::Position;
use crate::entity::Entity;
use crate::entity::Slot;
use crate::entity::SlotState;
use crate::gamelog::GameLog;
use crate::gamelog::log_push_spec;
use crate::util::clamp_i32;
use crate::world::World;

verus! {

/// Intent `i` asks to put item slot `j` into a backpack.
pub open spec fn picks(w: World, i: int, j: int) -> bool {
    &&& w.present_at(i)
    &&& match w.pickup_intents@[i] {
        Some(p) => w.valid(p.item) && p.item.index == j,
        None => false,
    }
}

/// Item slot `j` is the target of some pickup intent.
pub open spec fn pickup_target(w: World, j: int) -> bool {
    exists|i: int| 0 <= i < w.n() && picks(w, i, j)
}

/// The collector named by intent `i`.
pub open spec fn pickup_owner(w: World, i: int) -> Entity {
    w.pickup_intents@[i]->Some_0.collected_by
}

/// The player picks up a named, live item through intent `i`; exactly then a
/// pickup message is logged.
pub open spec fn player_picks(w: World, player: Entity, i: int) -> bool {
    &&& w.present_at(i)
    &&& match w.pickup_intents@[i] {
        Some(p) => w.valid(p.item) && p.collected_by == player && w.names@[p.item.index as int] is Some,
        None => false,
    }
}

/// The pickup message for intent `i`.
pub open spec fn pickup_msg(w: World, i: int) -> Seq<char> {
    "You picked up "@ + w.names@[w.pickup_intents@[i]->Some_0.item.index as int]->Some_0.name@
}

pub struct ItemCollectionSystem {}

impl ItemCollectionSystem {
    /// For each pickup intent, detaches the item's position and attaches a
    /// backpack edge to the collector; the player's pickups are logged. The
    /// whole intent set is cleared. When several intents race for one item,
    /// one of them wins (the pass's visiting order is not part of the
    /// contract).
    pub fn run(world: &mut World, log: &mut GameLog, player: Entity)
        requires
            old(world).wf(),
        ensures
            final(world).wf(),
            final(world).slots@ == old(world).slots@,
            forall|i: int|
                #![trigger final(world).pickup_intents@[i]]
                0 <= i < old(world).n() ==> final(world).pickup_intents@[i] is None,
            forall|j: int|
                #![trigger final(world).positions@[j]]
                #![trigger final(world).backpacks@[j]]
                0 <= j < old(world).n() && !pickup_target(*old(world), j) ==> final(world).positions@[j] == old(world).positions@[j] && final(world).backpacks@[j] == old(world).backpacks@[j],
            forall|j: int|
                #![trigger final(world).positions@[j]]
                #![trigger final(world).backpacks@[j]]
                0 <= j < old(world).n() && pickup_target(*old(world), j) ==> final(world).positions@[j] is None && exists|i: int|
                    0 <= i < old(world).n() && picks(*old(world), i, j) && final(world).backpacks@[j] == Some(InBackpack { owner: pickup_owner(*old(world), i) }),
            final(world).renderables@ == old(world).renderables@,
            final(world).names@ == old(world).names@,
            final(world).blockers@ == old(world).blockers@,
            final(world).items@ == old(world).items@,
            final(world).healing@ == old(world).healing@,
            final(world).consumables@ == old(world).consumables@,
            final(world).use_intents@ == old(world).use_intents@,
            final(world).drop_intents@ == old(world).drop_intents@,
            final(world).speeds@ == old(world).speeds@,
            final(world).combat_stats@ == old(world).combat_stats@,
            final(world).suffering@ == old(world).suffering@,
            final(world).melee_intents@ == old(world).melee_intents@,
            final(world).ranged@ == old(world).ranged@,
            final(world).inflicts@ == old(world).inflicts@,
            final(world).players@ == old(world).players@,
            final(world).viewsheds@ == old(world).viewsheds@,
            final(world).monsters@ == old(world).monsters@,
            final(world).markers@ == old(world).markers@,
            final(world).helpers@ == old(world).helpers@,
            final(log).bound() == old(log).bound(),
            (forall|i: int|
                0 <= i < old(world).n() ==> !player_picks(*old(world), player, i)) ==> final(log)@ == old(log)@,
            forall|i: int|
                (0 <= i < old(world).n() && player_picks(*old(world), player, i) && (forall|i2: int|
                    0 <= i2 < old(world).n() && i2 != i ==> !player_picks(
                        *old(world),
                        player,
                        i2,
                    ))) ==> final(log)@ == log_push_spec(
                    old(log)@,
                    old(log).bound(),
                    pickup_msg(*old(world), i),
                ),
            pickup_rel(*old(world), *final(world), old(log)@, old(log).bound(), final(log)@, player),
    {
        let ghost w0 = *old(world);
        let n = world.slots.len();
        let mut i: usize = 0;
        while i < n
            invariant
                w0.wf(),
                world.wf(),
                n == w0.n(),
                world.n() == n,
                i <= n,
                world.slots@ == w0.slots@,
                world.pickup_intents@ == w0.pickup_intents@,
                forall|j: int|
                    #![trigger world.positions@[j]]
                    #![trigger world.backpacks@[j]]
                    0 <= j < n && !(exists|k: int| 0 <= k < i && picks(w0, k, j))
                        ==> world.positions@[j] == w0.positions@[j] && world.backpacks@[j]
                        == w0.backpacks@[j],
                forall|j: int|
                    #![trigger world.positions@[j]]
                    #![trigger world.backpacks@[j]]
                    0 <= j < n && (exists|k: int| 0 <= k < i && picks(w0, k, j))
                        ==> world.positions@[j] is None && exists|k: int|
                        0 <= k < i && picks(w0, k, j) && world.backpacks@[j] == Some(
                            InBackpack { owner: pickup_owner(w0, k) },
                        ),
                world.renderables@ == w0.renderables@,
                world.names@ == w0.names@,
                world.blockers@ == w0.blockers@,
                world.items@ == w0.items@,
                world.healing@ == w0.healing@,
                world.consumables@ == w0.consumables@,
                world.use_intents@ == w0.use_intents@,
                world.drop_intents@ == w0.drop_intents@,
                world.speeds@ == w0.speeds@,
                world.combat_stats@ == w0.combat_stats@,
                world.suffering@ == w0.suffering@,
                world.melee_intents@ == w0.melee_intents@,
                world.ranged@ == w0.ranged@,
                world.inflicts@ == w0.inflicts@,
                world.players@ == w0.players@,
                world.viewsheds@ == w0.viewsheds@,
                world.monsters@ == w0.monsters@,
                world.markers@ == w0.markers@,
                world.helpers@ == w0.helpers@,
                log.bound() == old(log).bound(),
                (forall|k: int| 0 <= k < i ==> !player_picks(w0, player, k)) ==> log@ == old(log)@,
                forall|k: int|
                    (0 <= k < i && player_picks(w0, player, k) && (forall|k2: int|
                        0 <= k2 < i && k2 != k ==> !player_picks(w0, player, k2))) ==> log@
                        == log_push_spec(old(log)@, old(log).bound(), pickup_msg(w0, k)),
            decreases n - i,
        {
            let ghost pre = *world;
            let slot = world.slots[i];
            let mut intent: Option<crate::components::WantsToPickupItem> = None;
            if !matches!(slot.state, SlotState::Free) {
                if let Some(p) = world.pickup_intents.get(i) {
                    intent = Some(*p);
                }
            }
            match intent {
                Some(p) => {
                    if world.is_valid(p.item) {
                        proof {
                            assert(picks(w0, i as int, p.item.index as int));
                        }
                        world.positions.set(p.item.index, None);
                        world.backpacks.set(p.item.index, Some(InBackpack { owner: p.collected_by }));
                        proof {
                            assert forall|j: int|
                                0 <= j < world.n() && world.slots@[j].state is Free
                                implies world.no_comps_at(j) by {
                                assert(pre.no_comps_at(j));
                            }
                        }
                        let mut logged = false;
                        if p.collected_by.index == player.index && p.collected_by.gen == player.gen {
                            if let Some(nm) = world.names.get(p.item.index) {
                                let mut msg = String::from_str("You picked up ");
                                msg.append(nm.name.as_str());
                                proof {
                                    assert(player_picks(w0, player, i as int));
                                    assert(msg@ == pickup_msg(w0, i as int));
                                }
                                log.push(msg);
                                logged = true;
                            }
                        }
                        proof {
                            if !logged {
                                assert(!player_picks(w0, player, i as int));
                            }
                        }
                    } else {
                        proof {
                            assert(forall|j: int| !picks(w0, i as int, j));
                            assert(!player_picks(w0, player, i as int));
                        }
                    }
                },
                None => {
                    proof {
                        assert(forall|j: int| !picks(w0, i as int, j));
                        assert(!player_picks(w0, player, i as int));
                    }
                },
            }
            proof {
                assert forall|j: int|
                    0 <= j < n && !(exists|k: int| 0 <= k < i + 1 && picks(w0, k, j))
                    implies world.positions@[j] == w0.positions@[j] && world.backpacks@[j]
                    == w0.backpacks@[j] by {
                    assert(!picks(w0, i as int, j));
                    assert(!(exists|k: int| 0 <= k < i && picks(w0, k, j)));
                }
                assert forall|j: int|
                    0 <= j < n && (exists|k: int| 0 <= k < i + 1 && picks(w0, k, j))
                    implies world.positions@[j] is None && exists|k: int|
                    0 <= k < i + 1 && picks(w0, k, j) && world.backpacks@[j] == Some(
                        InBackpack { owner: pickup_owner(w0, k) },
                    ) by {
                    if picks(w0, i as int, j) {
                        assert(world.backpacks@[j] == Some(
                            InBackpack { owner: pickup_owner(w0, i as int) },
                        ));
                    } else {
                        assert(exists|k: int| 0 <= k < i && picks(w0, k, j));
                        let k = choose|k: int|
                            0 <= k < i && picks(w0, k, j) && world.backpacks@[j] == Some(
                                InBackpack { owner: pickup_owner(w0, k) },
                            );
                        assert(0 <= k < i + 1 && picks(w0, k, j) && world.backpacks@[j] == Some(
                            InBackpack { owner: pickup_owner(w0, k) },
                        ));
                    }
                }
            }
            i = i + 1;
        }
        world.pickup_intents.clear_all();
        proof {
            assert forall|j: int|
                0 <= j < world.n() && world.slots@[j].state is Free implies world.no_comps_at(
                j,
            ) by {
                assert(w0.slots@[j].state is Free);
                assert(w0.no_comps_at(j));
                if exists|k: int| 0 <= k < i && picks(w0, k, j) {
                    let k = choose|k: int| 0 <= k < i && picks(w0, k, j);
                    assert(w0.present_at(j));
                    assert(false);
                }
                assert(world.positions@[j] == w0.positions@[j]);
                assert(world.backpacks@[j] == w0.backpacks@[j]);
            }
            assert forall|j: int|
                0 <= j < n && pickup_target(w0, j) implies world.positions@[j] is None
                && exists|i2: int|
                0 <= i2 < n && picks(w0, i2, j) && world.backpacks@[j] == Some(
                    InBackpack { owner: pickup_owner(w0, i2) },
                ) by {
                let k = choose|k: int| 0 <= k < w0.n() && picks(w0, k, j);
                assert(exists|k2: int| 0 <= k2 < n && picks(w0, k2, j));
            }
        }
    }
}

/// Intent `i` is a live use-intent of an entity with combat stats, aimed at
/// item slot `j`.
pub open spec fn consumes(w: World, i: int, j: int) -> bool {
    &&& w.present_at(i)
    &&& w.combat_stats@[i] is Some
    &&& match w.use_intents@[i] {
        Some(u) => w.valid(u.item) && u.item.index == j,
        None => false,
    }
}

/// Item slot `j` is used this pass as a consumable, so it is destroyed.
pub open spec fn consumed_upto(w: World, j: int, upto: int) -> bool {
    (exists|i: int| 0 <= i < upto && consumes(w, i, j)) && w.consumables@[j] is Some
}

/// The slot transition of the use pass: a consumed living item turns dying,
/// everything else is untouched.
pub open spec fn used_slot_upto(w: World, j: int, upto: int) -> Slot {
    if consumed_upto(w, j, upto) && w.slots@[j].state is Alive {
        Slot { gen: w.slots@[j].gen, state: SlotState::Dying }
    } else {
        w.slots@[j]
    }
}

/// Healing clamps hit points at the maximum (and into the 32-bit range).
pub open spec fn healed_hp(hp: int, max_hp: int, amount: int) -> int {
    clamp_i32(if hp + amount > max_hp { max_hp } else { hp + amount })
}

/// What the use pass leaves in an entity's combat stats: healed when its
/// intent names a live item that provides healing, untouched otherwise.
pub open spec fn used_stats(w: World, i: int) -> Option<CombatStats> {
    match w.combat_stats@[i] {
        Some(cs) => {
            if w.present_at(i) && (match w.use_intents@[i] {
                Some(u) => w.valid(u.item) && w.healing@[u.item.index as int] is Some,
                None => false,
            }) {
                let amount =
                    w.healing@[w.use_intents@[i]->Some_0.item.index as int]->Some_0.heal_amount;
                Some(
                    CombatStats {
                        hp: healed_hp(cs.hp as int, cs.max_hp as int, amount as int) as i32,
                        ..cs
                    },
                )
            } else {
                Some(cs)
            }
        },
        None => None,
    }
}

/// The player uses a healing item this pass, which is logged.
pub open spec fn player_heals(w: World, player: Entity, i: int) -> bool {
    &&& consumes_any(w, i)
    &&& w.handle(i) == player
    &&& match w.use_intents@[i] {
        Some(u) => w.valid(u.item) && w.healing@[u.item.index as int] is Some,
        None => false,
    }
}

/// Entity `i` carries a live use intent and combat stats.
pub open spec fn consumes_any(w: World, i: int) -> bool {
    &&& w.present_at(i)
    &&& w.combat_stats@[i] is Some
    &&& w.use_intents@[i] is Some
}

/// Entity `i`'s use intent destroys its (live, consumable) item.
pub open spec fn use_destroys(w: World, i: int) -> bool {
    &&& consumes_any(w, i)
    &&& match w.use_intents@[i] {
        Some(u) => w.valid(u.item) && w.consumables@[u.item.index as int] is Some,
        None => false,
    }
}

/// The slot index of the item entity `i`'s use intent names.
pub open spec fn use_item_of(w: World, i: int) -> int {
    w.use_intents@[i]->Some_0.item.index as int
}

/// The player's healing use is logged only when the item also has a name.
pub open spec fn heal_logged(w: World, player: Entity, i: int) -> bool {
    player_heals(w, player, i) && w.names@[use_item_of(w, i)] is Some
}

/// The slot the use pass leaves for a destroyed item.
pub open spec fn dying_slot_of(w: World, j: int) -> Slot {
    Slot { gen: w.slots@[j].gen, state: SlotState::Dying }
}

/// The message the player's drink leaves in the log.
pub open spec fn drink_msg(w: World, i: int) -> Seq<char> {
    let item = use_item_of(w, i);
    "You drink the "@ + w.names@[item]->Some_0.name@ + ", healing "@ + crate::util::dec_i32(
        w.healing@[item]->Some_0.heal_amount as int,
    ) + " hp"@
}

/// Use-pass semantics depend only on parts of the state the pass never
/// changes (plus presence and generations, which deferred destruction
/// preserves), so mid-pass and start-of-pass readings agree.
proof fn lemma_use_semantics_stable(w0: World, cur: World, player: Entity, i: int, upto: int)
    requires
        cur.n() == w0.n(),
        0 <= i < w0.n(),
        forall|j: int| #![trigger cur.slots@[j]] 0 <= j < w0.n() ==> cur.slots@[j] == used_slot_upto(w0, j, upto),
        cur.use_intents@ == w0.use_intents@,
        cur.healing@ == w0.healing@,
        cur.consumables@ == w0.consumables@,
        cur.names@ == w0.names@,
        cur.combat_stats@[i] == w0.combat_stats@[i],
    ensures
        used_stats(cur, i) == used_stats(w0, i),
        use_destroys(cur, i) == use_destroys(w0, i),
        consumes_any(cur, i) == consumes_any(w0, i),
        heal_logged(cur, player, i) == heal_logged(w0, player, i),
        consumes_any(w0, i) ==> use_item_of(cur, i) == use_item_of(w0, i),
        forall|j: int| 0 <= j < w0.n() ==> consumes(cur, i, j) == consumes(w0, i, j),
        forall|e: crate::entity::Entity| cur.valid(e) == w0.valid(e),
{
    assert forall|e: crate::entity::Entity| cur.valid(e) == w0.valid(e) by {
        if e.index < w0.n() {
            assert(cur.slots@[e.index as int] == used_slot_upto(w0, e.index as int, upto));
        }
    }
    assert(cur.present_at(i) == w0.present_at(i)) by {
        assert(cur.slots@[i] == used_slot_upto(w0, i, upto));
    }
    assert forall|j: int| 0 <= j < w0.n() implies consumes(cur, i, j) == consumes(w0, i, j) by {
        assert(cur.slots@[j] == used_slot_upto(w0, j, upto));
    }
}

pub struct ItemUseSystem {}

impl ItemUseSystem {
    /// One entity's use intent: heals from a live healing item (clamped at
    /// max hp), destroys a live consumable item (deferred), logs the player's
    /// drink. A stale or absent item, or a missing intent, changes nothing.
    fn use_one(world: &mut World, log: &mut GameLog, player: Entity, i: usize)
        requires
            old(world).wf(),
            i < old(world).n(),
        ensures
            final(world).wf(),
            final(world).n() == old(world).n(),
            final(world).combat_stats@ == old(world).combat_stats@.update(
                i as int,
                used_stats(*old(world), i as int),
            ),
            (use_destroys(*old(world), i as int) && old(world).slots@[use_item_of(
                *old(world),
                i as int,
            )].state is Alive) ==> final(world).slots@ == old(world).slots@.update(
                use_item_of(*old(world), i as int),
                dying_slot_of(*old(world), use_item_of(*old(world), i as int)),
            ),
            !(use_destroys(*old(world), i as int) && old(world).slots@[use_item_of(
                *old(world),
                i as int,
            )].state is Alive) ==> final(world).slots@ == old(world).slots@,
            final(world).positions@ == old(world).positions@,
            final(world).renderables@ == old(world).renderables@,
            final(world).names@ == old(world).names@,
            final(world).blockers@ == old(world).blockers@,
            final(world).items@ == old(world).items@,
            final(world).backpacks@ == old(world).backpacks@,
            final(world).pickup_intents@ == old(world).pickup_intents@,
            final(world).healing@ == old(world).healing@,
            final(world).consumables@ == old(world).consumables@,
            final(world).use_intents@ == old(world).use_intents@,
            final(world).drop_intents@ == old(world).drop_intents@,
            final(world).speeds@ == old(world).speeds@,
            final(world).suffering@ == old(world).suffering@,
            final(world).melee_intents@ == old(world).melee_intents@,
            final(world).ranged@ == old(world).ranged@,
            final(world).inflicts@ == old(world).inflicts@,
            final(world).players@ == old(world).players@,
            final(world).viewsheds@ == old(world).viewsheds@,
            final(world).monsters@ == old(world).monsters@,
            final(world).markers@ == old(world).markers@,
            final(world).helpers@ == old(world).helpers@,
            final(log).bound() == old(log).bound(),
            !heal_logged(*old(world), player, i as int) ==> final(log)@ == old(log)@,
            heal_logged(*old(world), player, i as int) ==> final(log)@ == log_push_spec(
                old(log)@,
                old(log).bound(),
                drink_msg(*old(world), i as int),
            ),
    {
        let ghost w0 = *old(world);
        let slot = world.slots[i];
        let mut intent: Option<crate::components::WantsToUseItem> = None;
        if !matches!(slot.state, SlotState::Free) {
            if let Some(u) = world.use_intents.get(i) {
                let has_stats = match world.combat_stats.get(i) {
                    Some(_) => true,
                    None => false,
                };
                if has_stats {
                    intent = Some(*u);
                }
            }
        }
        let u = match intent {
            Some(u) => u,
            None => {
                proof {
                    assert(!consumes_any(w0, i as int));
                    assert(!heal_logged(w0, player, i as int));
                    assert(world.combat_stats@ =~= w0.combat_stats@.update(
                        i as int,
                        used_stats(w0, i as int),
                    ));
                }
                return ;
            },
        };
        if !world.is_valid(u.item) {
            proof {
                assert(!use_destroys(w0, i as int));
                assert(!heal_logged(w0, player, i as int));
                assert(world.combat_stats@ =~= w0.combat_stats@.update(
                    i as int,
                    used_stats(w0, i as int),
                ));
            }
            return ;
        }
        match world.healing.get(u.item.index) {
            Some(h) => {
                let amount = h.heal_amount;
                if let Some(cs) = world.combat_stats.get(i) {
                    let cs = *cs;
                    let sum64 = cs.hp as i64 + amount as i64;
                    let m64 = if sum64 > cs.max_hp as i64 {
                        cs.max_hp as i64
                    } else {
                        sum64
                    };
                    let new_hp: i32 = if m64 < i32::MIN as i64 {
                        i32::MIN
                    } else {
                        m64 as i32
                    };
                    world.combat_stats.set(i, Some(CombatStats { hp: new_hp, ..cs }));
                    proof {
                        assert(world.combat_stats@[i as int] == used_stats(w0, i as int));
                        assert(world.combat_stats@ =~= w0.combat_stats@.update(
                            i as int,
                            used_stats(w0, i as int),
                        ));
                        assert forall|j: int|
                            0 <= j < world.n() && world.slots@[j].state is Free
                            implies world.no_comps_at(j) by {
                            assert(w0.no_comps_at(j));
                        }
                    }
                    if slot.gen == player.gen && i == player.index {
                        if let Some(nm) = world.names.get(u.item.index) {
                            let mut msg = String::from_str("You drink the ");
                            msg.append(nm.name.as_str());
                            msg.append(", healing ");
                            let shown = crate::util::format_i32(amount);
                            msg.append(shown.as_str());
                            msg.append(" hp");
                            proof {
                                assert(w0.handle(i as int) == player);
                                assert(heal_logged(w0, player, i as int));
                                assert(msg@ == drink_msg(w0, i as int));
                            }
                            log.push(msg);
                        } else {
                            proof {
                                assert(!heal_logged(w0, player, i as int));
                            }
                        }
                    } else {
                        proof {
                            assert(!heal_logged(w0, player, i as int));
                        }
                    }
                }
            },
            None => {
                proof {
                    assert(world.combat_stats@[i as int] == used_stats(w0, i as int));
                    assert(world.combat_stats@ =~= w0.combat_stats@.update(
                        i as int,
                        used_stats(w0, i as int),
                    ));
                    assert(!heal_logged(w0, player, i as int));
                }
            },
        }
        let is_consumable = match world.consumables.get(u.item.index) {
            Some(_) => true,
            None => false,
        };
        if is_consumable {
            proof {
                assert(use_destroys(w0, i as int));
            }
            world.destroy(Entity { index: u.item.index, gen: u.item.gen });
        }
    }

    /// For each use intent of an entity with combat stats: a healing item
    /// restores hit points up to the maximum, and a consumable item is
    /// destroyed (deferred) whether or not it had an effect. Using a stale or
    /// effect-less item is a no-op; the whole intent set is cleared.
    pub fn run(world: &mut World, log: &mut GameLog, player: Entity)
        requires
            old(world).wf(),
        ensures
            final(world).wf(),
            final(world).n() == old(world).n(),
            forall|j: int|
                #![trigger final(world).slots@[j]]
                0 <= j < old(world).n() ==> final(world).slots@[j] == used_slot_upto(
                    *old(world),
                    j,
                    old(world).n(),
                ),
            forall|i: int|
                #![trigger final(world).combat_stats@[i]]
                0 <= i < old(world).n() ==> final(world).combat_stats@[i] == used_stats(
                    *old(world),
                    i,
                ),
            forall|i: int|
                #![trigger final(world).use_intents@[i]]
                0 <= i < old(world).n() ==> final(world).use_intents@[i] is None,
            final(world).positions@ == old(world).positions@,
            final(world).renderables@ == old(world).renderables@,
            final(world).names@ == old(world).names@,
            final(world).blockers@ == old(world).blockers@,
            final(world).items@ == old(world).items@,
            final(world).backpacks@ == old(world).backpacks@,
            final(world).pickup_intents@ == old(world).pickup_intents@,
            final(world).healing@ == old(world).healing@,
            final(world).consumables@ == old(world).consumables@,
            final(world).drop_intents@ == old(world).drop_intents@,
            final(world).speeds@ == old(world).speeds@,
            final(world).suffering@ == old(world).suffering@,
            final(world).melee_intents@ == old(world).melee_intents@,
            final(world).ranged@ == old(world).ranged@,
            final(world).inflicts@ == old(world).inflicts@,
            final(world).players@ == old(world).players@,
            final(world).viewsheds@ == old(world).viewsheds@,
            final(world).monsters@ == old(world).monsters@,
            final(world).markers@ == old(world).markers@,
            final(world).helpers@ == old(world).helpers@,
            final(log).bound() == old(log).bound(),
            (forall|i: int|
                0 <= i < old(world).n() ==> !heal_logged(*old(world), player, i)) ==> final(log)@ == old(log)@,
            forall|i: int|
                (0 <= i < old(world).n() && heal_logged(*old(world), player, i) && (forall|i2: int|
                    0 <= i2 < old(world).n() && i2 != i ==> !heal_logged(*old(world), player, i2)))
                    ==> final(log)@ == log_push_spec(
                    old(log)@,
                    old(log).bound(),
                    drink_msg(*old(world), i),
                ),
            use_rel(*old(world), *final(world), old(log)@, old(log).bound(), final(log)@, player),
    {
        let ghost w0 = *old(world);
        let n = world.slots.len();
        let mut i: usize = 0;
        while i < n
            invariant
                w0.wf(),
                world.wf(),
                n == w0.n(),
                world.n() == n,
                i <= n,
                forall|j: int|
                    #![trigger world.slots@[j]]
                    0 <= j < n ==> world.slots@[j] == used_slot_upto(w0, j, i as int),
                forall|j: int|
                    #![trigger world.combat_stats@[j]]
                    0 <= j < i ==> world.combat_stats@[j] == used_stats(w0, j),
                forall|j: int|
                    #![trigger world.combat_stats@[j]]
                    i <= j < n ==> world.combat_stats@[j] == w0.combat_stats@[j],
                world.positions@ == w0.positions@,
                world.renderables@ == w0.renderables@,
                world.names@ == w0.names@,
                world.blockers@ == w0.blockers@,
                world.items@ == w0.items@,
                world.backpacks@ == w0.backpacks@,
                world.pickup_intents@ == w0.pickup_intents@,
                world.healing@ == w0.healing@,
                world.consumables@ == w0.consumables@,
                world.use_intents@ == w0.use_intents@,
                world.drop_intents@ == w0.drop_intents@,
                world.speeds@ == w0.speeds@,
                world.suffering@ == w0.suffering@,
                world.melee_intents@ == w0.melee_intents@,
                world.ranged@ == w0.ranged@,
                world.inflicts@ == w0.inflicts@,
                world.players@ == w0.players@,
                world.viewsheds@ == w0.viewsheds@,
                world.monsters@ == w0.monsters@,
                world.markers@ == w0.markers@,
                world.helpers@ == w0.helpers@,
                log.bound() == old(log).bound(),
                (forall|k: int| 0 <= k < i ==> !heal_logged(w0, player, k)) ==> log@ == old(log)@,
                forall|k: int|
                    (0 <= k < i && heal_logged(w0, player, k) && (forall|k2: int|
                        0 <= k2 < i && k2 != k ==> !heal_logged(w0, player, k2))) ==> log@
                        == log_push_spec(old(log)@, old(log).bound(), drink_msg(w0, k)),
            decreases n - i,
        {
            let ghost pre = *world;
            proof {
                lemma_use_semantics_stable(w0, pre, player, i as int, i as int);
                assert(heal_logged(pre, player, i as int) == heal_logged(w0, player, i as int));
                if heal_logged(w0, player, i as int) {
                    assert(drink_msg(pre, i as int) == drink_msg(w0, i as int));
                }
            }
            Self::use_one(world, log, player, i);
            proof {
                assert forall|j: int| 0 <= j < n implies world.slots@[j] == used_slot_upto(
                    w0,
                    j,
                    i + 1,
                ) by {
                    assert(pre.slots@[j] == used_slot_upto(w0, j, i as int));
                    if use_destroys(w0, i as int) && j == use_item_of(w0, i as int) {
                        assert(consumes(w0, i as int, j));
                        assert(consumed_upto(w0, j, i + 1));
                        if pre.slots@[j].state is Alive {
                            assert(!(consumed_upto(w0, j, i as int) && w0.slots@[j].state
                                is Alive));
                            assert(w0.slots@[j].state is Alive);
                            assert(world.slots@[j] == dying_slot_of(pre, j));
                        } else {
                            assert(world.slots@[j] == pre.slots@[j]);
                        }
                    } else {
                        assert(world.slots@[j] == pre.slots@[j]);
                        if consumed_upto(w0, j, i + 1) && !consumed_upto(w0, j, i as int) {
                            assert(consumes(w0, i as int, j));
                            assert(use_destroys(w0, i as int));
                            assert(j == use_item_of(w0, i as int));
                        }
                    }
                }
                assert forall|j: int| 0 <= j < i + 1 implies world.combat_stats@[j] == used_stats(
                    w0,
                    j,
                ) by {
                    if j == i {
                        assert(world.combat_stats@[j] == used_stats(pre, i as int));
                    } else {
                        assert(world.combat_stats@[j] == pre.combat_stats@[j]);
                    }
                }
            }
            i = i + 1;
        }
        world.use_intents.clear_all();
        proof {
            assert forall|j: int|
                0 <= j < world.n() && world.slots@[j].state is Free implies world.no_comps_at(
                j,
            ) by {
                assert(world.slots@[j] == used_slot_upto(w0, j, n as int));
                assert(w0.slots@[j].state is Free);
                assert(w0.no_comps_at(j));
            }
        }
    }
}
/// Intent `i` is a live drop intent aimed at item slot `j`.
pub open spec fn drops_any(w: World, i: int, j: int) -> bool {
    &&& w.present_at(i)
    &&& match w.drop_intents@[i] {
        Some(d) => w.valid(d.item) && d.item.index == j,
        None => false,
    }
}

/// A live drop intent whose dropper also has a position: only those place
/// their item on the map.
pub open spec fn drops_from(w: World, i: int, j: int) -> bool {
    drops_any(w, i, j) && w.positions@[i] is Some
}

/// Item slot `j` is the target of some drop intent.
pub open spec fn drop_target(w: World, j: int) -> bool {
    exists|i: int| 0 <= i < w.n() && drops_any(w, i, j)
}

/// No dropped item is itself a dropper: under this premise the pass's
/// outcome is described exactly from the start-of-pass state (a dropper's
/// own position then cannot change mid-pass).
pub open spec fn no_chained_drops(w: World) -> bool {
    forall|i: int, j: int|
        0 <= i < w.n() && 0 <= j < w.n() && drops_any(w, i, j) ==> w.drop_intents@[j] is None
}

/// Dropper `i` currently drops: live intent, live item, and a position to
/// copy onto the item.
pub open spec fn drops_now(w: World, i: int) -> bool {
    &&& w.present_at(i)
    &&& match w.drop_intents@[i] {
        Some(d) => w.valid(d.item),
        None => false,
    }
    &&& w.positions@[i] is Some
}

/// The slot index of the item entity `i`'s drop intent names.
pub open spec fn drop_item_of(w: World, i: int) -> int {
    w.drop_intents@[i]->Some_0.item.index as int
}

/// The player carries a drop intent at all; only then can a drop message be
/// logged this pass.
pub open spec fn drop_logged(w: World, player: Entity, i: int) -> bool {
    &&& w.present_at(i)
    &&& w.drop_intents@[i] is Some
    &&& w.handle(i) == player
}

/// The player drops a named item while both are named and the player stands
/// somewhere: exactly then the drop message is logged.
pub open spec fn drop_msg_due(w: World, player: Entity, i: int) -> bool {
    &&& drops_now(w, i)
    &&& w.handle(i) == player
    &&& w.names@[i] is Some
    &&& w.names@[drop_item_of(w, i)] is Some
}

/// The message the player's drop leaves in the log.
pub open spec fn drop_msg(w: World, i: int) -> Seq<char> {
    w.names@[i]->Some_0.name@ + " dropped "@ + w.names@[drop_item_of(w, i)]->Some_0.name@ + "."@
}

pub struct ItemDropSystem {}

impl ItemDropSystem {
    /// One entity's drop intent: copies the dropper's current position onto
    /// the item and detaches the item's backpack edge; the player's drop is
    /// logged. A dropper without a position, or a stale item, is a no-op.
    fn drop_one(world: &mut World, log: &mut GameLog, player: Entity, i: usize)
        requires
            old(world).wf(),
            i < old(world).n(),
        ensures
            final(world).wf(),
            final(world).n() == old(world).n(),
            final(world).slots@ == old(world).slots@,
            drops_now(*old(world), i as int) ==> final(world).positions@ == old(world).positions@.update(
                drop_item_of(*old(world), i as int),
                old(world).positions@[i as int],
            ) && final(world).backpacks@ == old(world).backpacks@.update(
                drop_item_of(*old(world), i as int),
                None,
            ),
            !drops_now(*old(world), i as int) ==> final(world).positions@ == old(world).positions@
                && final(world).backpacks@ == old(world).backpacks@,
            final(world).renderables@ == old(world).renderables@,
            final(world).names@ == old(world).names@,
            final(world).blockers@ == old(world).blockers@,
            final(world).items@ == old(world).items@,
            final(world).pickup_intents@ == old(world).pickup_intents@,
            final(world).healing@ == old(world).healing@,
            final(world).consumables@ == old(world).consumables@,
            final(world).use_intents@ == old(world).use_intents@,
            final(world).drop_intents@ == old(world).drop_intents@,
            final(world).speeds@ == old(world).speeds@,
            final(world).combat_stats@ == old(world).combat_stats@,
            final(world).suffering@ == old(world).suffering@,
            final(world).melee_intents@ == old(world).melee_intents@,
            final(world).ranged@ == old(world).ranged@,
            final(world).inflicts@ == old(world).inflicts@,
            final(world).players@ == old(world).players@,
            final(world).viewsheds@ == old(world).viewsheds@,
            final(world).monsters@ == old(world).monsters@,
            final(world).markers@ == old(world).markers@,
            final(world).helpers@ == old(world).helpers@,
            final(log).bound() == old(log).bound(),
            !drop_logged(*old(world), player, i as int) ==> final(log)@ == old(log)@,
            drop_msg_due(*old(world), player, i as int) ==> final(log)@ == log_push_spec(
                old(log)@,
                old(log).bound(),
                drop_msg(*old(world), i as int),
            ),
            !drop_msg_due(*old(world), player, i as int) ==> final(log)@ == old(log)@,
    {
        let ghost w0 = *old(world);
        let slot = world.slots[i];
        let mut intent: Option<crate::components::WantsToDropItem> = None;
        if !matches!(slot.state, SlotState::Free) {
            if let Some(d) = world.drop_intents.get(i) {
                intent = Some(*d);
            }
        }
        let d = match intent {
            Some(d) => d,
            None => {
                proof {
                    assert(!drops_now(w0, i as int));
                    assert(!drop_logged(w0, player, i as int));
                }
                return ;
            },
        };
        if !world.is_valid(d.item) {
            proof {
                assert(!drops_now(w0, i as int));
            }
            return ;
        }
        let drop_pos = match world.positions.get(i) {
            Some(p) => *p,
            None => {
                proof {
                    assert(!drops_now(w0, i as int));
                }
                return ;
            },
        };
        proof {
            assert(drops_now(w0, i as int));
        }
        world.positions.set(d.item.index, Some(Position { x: drop_pos.x, y: drop_pos.y }));
        world.backpacks.set(d.item.index, None);
        proof {
            assert(world.positions@[d.item.index as int] == w0.positions@[i as int]);
            assert(world.positions@ =~= w0.positions@.update(
                drop_item_of(w0, i as int),
                w0.positions@[i as int],
            ));
            assert forall|j: int|
                0 <= j < world.n() && world.slots@[j].state is Free implies world.no_comps_at(
                j,
            ) by {
                assert(w0.no_comps_at(j));
            }
        }
        if slot.gen == player.gen && i == player.index {
            let mut msg = String::new();
            let mut named = false;
            if let Some(pn) = world.names.get(i) {
                msg.append(pn.name.as_str());
                named = true;
            }
            if named {
                if let Some(inm) = world.names.get(d.item.index) {
                    msg.append(" dropped ");
                    msg.append(inm.name.as_str());
                    msg.append(".");
                    proof {
                        assert(w0.handle(i as int) == player);
                        assert(drop_logged(w0, player, i as int));
                        assert(drop_msg_due(w0, player, i as int));
                        assert(msg@ == drop_msg(w0, i as int));
                    }
                    log.push(msg);
                } else {
                    proof {
                        assert(!drop_msg_due(w0, player, i as int));
                    }
                }
            } else {
                proof {
                    assert(!drop_msg_due(w0, player, i as int));
                }
            }
        } else {
            proof {
                assert(!drop_msg_due(w0, player, i as int));
            }
        }
    }

    #[verifier::rlimit(100)]
    #[verifier::spinoff_prover]
    /// For each drop intent, copies the dropping entity's current position
    /// onto the item and detaches the item's backpack edge; the player's
    /// drops are logged, and the whole intent set is cleared. An item ends up
    /// either untouched or positioned-and-out-of-backpack, never in between;
    /// when no dropped item is itself a dropper, the outcome is exactly the
    /// start-of-turn positions copied over.
    pub fn run(world: &mut World, log: &mut GameLog, player: Entity)
        requires
            old(world).wf(),
        ensures
            final(world).wf(),
            final(world).slots@ == old(world).slots@,
            forall|i: int|
                #![trigger final(world).drop_intents@[i]]
                0 <= i < old(world).n() ==> final(world).drop_intents@[i] is None,
            forall|j: int|
                #![trigger final(world).positions@[j]]
                #![trigger final(world).backpacks@[j]]
                0 <= j < old(world).n() && !drop_target(*old(world), j) ==> final(world).positions@[j] == old(world).positions@[j] && final(world).backpacks@[j] == old(world).backpacks@[j],
            forall|j: int|
                #![trigger final(world).positions@[j]]
                #![trigger final(world).backpacks@[j]]
                0 <= j < old(world).n() ==> ((final(world).positions@[j] == old(world).positions@[j] && final(world).backpacks@[j] == old(world).backpacks@[j]) || (
                final(world).positions@[j] is Some && final(world).backpacks@[j] is None)),
            forall|j: int|
                #![trigger final(world).positions@[j]]
                0 <= j < old(world).n() && final(world).positions@[j] is Some ==> exists|i: int|
                    0 <= i < old(world).n() && old(world).positions@[i] is Some && final(world).positions@[j] == old(world).positions@[i],
            no_chained_drops(*old(world)) ==> forall|j: int|
                #![trigger final(world).positions@[j]]
                #![trigger final(world).backpacks@[j]]
                0 <= j < old(world).n() && (exists|i: int|
                    0 <= i < old(world).n() && drops_from(*old(world), i, j)) ==> final(world).backpacks@[j] is None && exists|i: int|
                    0 <= i < old(world).n() && drops_from(*old(world), i, j) && final(world).positions@[j] == old(world).positions@[i],
            no_chained_drops(*old(world)) ==> forall|j: int|
                #![trigger final(world).positions@[j]]
                #![trigger final(world).backpacks@[j]]
                0 <= j < old(world).n() && !(exists|i: int|
                    0 <= i < old(world).n() && drops_from(*old(world), i, j)) ==> final(world).positions@[j] == old(world).positions@[j] && final(world).backpacks@[j] == old(world).backpacks@[j],
            final(world).renderables@ == old(world).renderables@,
            final(world).names@ == old(world).names@,
            final(world).blockers@ == old(world).blockers@,
            final(world).items@ == old(world).items@,
            final(world).pickup_intents@ == old(world).pickup_intents@,
            final(world).healing@ == old(world).healing@,
            final(world).consumables@ == old(world).consumables@,
            final(world).use_intents@ == old(world).use_intents@,
            final(world).speeds@ == old(world).speeds@,
            final(world).combat_stats@ == old(world).combat_stats@,
            final(world).suffering@ == old(world).suffering@,
            final(world).melee_intents@ == old(world).melee_intents@,
            final(world).ranged@ == old(world).ranged@,
            final(world).inflicts@ == old(world).inflicts@,
            final(world).players@ == old(world).players@,
            final(world).viewsheds@ == old(world).viewsheds@,
            final(world).monsters@ == old(world).monsters@,
            final(world).markers@ == old(world).markers@,
            final(world).helpers@ == old(world).helpers@,
            final(log).bound() == old(log).bound(),
            (forall|i: int|
                0 <= i < old(world).n() ==> !drop_logged(*old(world), player, i)) ==> final(log)@ == old(log)@,
            no_chained_drops(*old(world)) ==> forall|i: int|
                (0 <= i < old(world).n() && drop_msg_due(*old(world), player, i) && (forall|
                    i2: int,
                |
                    0 <= i2 < old(world).n() && i2 != i ==> !drop_logged(*old(world), player, i2)))
                    ==> final(log)@ == log_push_spec(
                    old(log)@,
                    old(log).bound(),
                    drop_msg(*old(world), i),
                ),
            drop_rel(*old(world), *final(world), old(log)@, old(log).bound(), final(log)@, player),
    {
        let ghost w0 = *old(world);
        let n = world.slots.len();
        let mut i: usize = 0;
        while i < n
            invariant
                w0.wf(),
                world.wf(),
                n == w0.n(),
                world.n() == n,
                i <= n,
                world.slots@ == w0.slots@,
                world.drop_intents@ == w0.drop_intents@,
                forall|j: int|
                    #![trigger world.positions@[j]]
                    #![trigger world.backpacks@[j]]
                    0 <= j < n && !(exists|k: int| 0 <= k < i && drops_any(w0, k, j))
                        ==> world.positions@[j] == w0.positions@[j] && world.backpacks@[j]
                        == w0.backpacks@[j],
                forall|j: int|
                    #![trigger world.positions@[j]]
                    #![trigger world.backpacks@[j]]
                    0 <= j < n ==> ((world.positions@[j] == w0.positions@[j]
                        && world.backpacks@[j] == w0.backpacks@[j]) || (world.positions@[j] is Some
                        && world.backpacks@[j] is None)),
                forall|j: int|
                    #![trigger world.positions@[j]]
                    0 <= j < n && world.positions@[j] is Some ==> exists|i2: int|
                        0 <= i2 < n && w0.positions@[i2] is Some && world.positions@[j]
                            == w0.positions@[i2],
                no_chained_drops(w0) ==> forall|j: int|
                    #![trigger world.positions@[j]]
                    #![trigger world.backpacks@[j]]
                    0 <= j < n && (exists|k: int| 0 <= k < i && drops_from(w0, k, j))
                        ==> world.backpacks@[j] is None && exists|k: int|
                        0 <= k < i && drops_from(w0, k, j) && world.positions@[j]
                            == w0.positions@[k],
                no_chained_drops(w0) ==> forall|j: int|
                    #![trigger world.positions@[j]]
                    #![trigger world.backpacks@[j]]
                    0 <= j < n && !(exists|k: int| 0 <= k < i && drops_from(w0, k, j))
                        ==> world.positions@[j] == w0.positions@[j] && world.backpacks@[j]
                        == w0.backpacks@[j],
                world.renderables@ == w0.renderables@,
                world.names@ == w0.names@,
                world.blockers@ == w0.blockers@,
                world.items@ == w0.items@,
                world.pickup_intents@ == w0.pickup_intents@,
                world.healing@ == w0.healing@,
                world.consumables@ == w0.consumables@,
                world.use_intents@ == w0.use_intents@,
                world.speeds@ == w0.speeds@,
                world.combat_stats@ == w0.combat_stats@,
                world.suffering@ == w0.suffering@,
                world.melee_intents@ == w0.melee_intents@,
                world.ranged@ == w0.ranged@,
                world.inflicts@ == w0.inflicts@,
                world.players@ == w0.players@,
                world.viewsheds@ == w0.viewsheds@,
                world.monsters@ == w0.monsters@,
                world.markers@ == w0.markers@,
                world.helpers@ == w0.helpers@,
                log.bound() == old(log).bound(),
                (forall|k: int| 0 <= k < i ==> !drop_logged(w0, player, k)) ==> log@ == old(log)@,
                no_chained_drops(w0) ==> forall|k: int|
                    (0 <= k < i && drop_msg_due(w0, player, k) && (forall|k2: int|
                        0 <= k2 < i && k2 != k ==> !drop_logged(w0, player, k2))) ==> log@
                        == log_push_spec(old(log)@, old(log).bound(), drop_msg(w0, k)),
            decreases n - i,
        {
            let ghost pre = *world;
            Self::drop_one(world, log, player, i);
            proof {
                let ii = i as int;
                assert(pre.slots@[ii] == w0.slots@[ii]);
                assert(drop_logged(pre, player, ii) == drop_logged(w0, player, ii));
                if no_chained_drops(w0) {
                    if drop_logged(w0, player, ii) {
                        assert(pre.positions@[ii] == w0.positions@[ii]) by {
                            if exists|k: int| 0 <= k < ii && drops_any(w0, k, ii) {
                                let k = choose|k: int| 0 <= k < ii && drops_any(w0, k, ii);
                                assert(w0.drop_intents@[ii] is None);
                            }
                        }
                        assert(drop_msg_due(pre, player, ii) == drop_msg_due(w0, player, ii));
                        if drop_msg_due(w0, player, ii) {
                            assert(drop_msg(pre, ii) == drop_msg(w0, ii));
                        }
                    } else {
                        assert(!drop_msg_due(pre, player, ii));
                    }
                    assert forall|k: int|
                        (0 <= k < ii + 1 && drop_msg_due(w0, player, k) && (forall|k2: int|
                            0 <= k2 < ii + 1 && k2 != k ==> !drop_logged(w0, player, k2)))
                        implies log@ == log_push_spec(
                        old(log)@,
                        old(log).bound(),
                        drop_msg(w0, k),
                    ) by {
                        if k == ii {
                            assert(forall|k2: int| 0 <= k2 < ii ==> !drop_logged(w0, player, k2));
                        } else {
                            assert(!drop_logged(w0, player, ii));
                            assert(!drop_msg_due(pre, player, ii));
                        }
                    }
                }
                assert forall|j: int|
                    0 <= j < n && world.positions@[j] is Some implies exists|i2: int|
                    0 <= i2 < n && w0.positions@[i2] is Some && world.positions@[j]
                        == w0.positions@[i2] by {
                    if drops_now(pre, ii) && j == drop_item_of(pre, ii) {
                        assert(world.positions@[j] == pre.positions@[ii]);
                        assert(pre.positions@[ii] is Some);
                        let i2 = choose|i2: int|
                            0 <= i2 < n && w0.positions@[i2] is Some && pre.positions@[ii]
                                == w0.positions@[i2];
                        assert(0 <= i2 < n && w0.positions@[i2] is Some && world.positions@[j]
                            == w0.positions@[i2]);
                    } else {
                        assert(world.positions@[j] == pre.positions@[j]);
                        let i2 = choose|i2: int|
                            0 <= i2 < n && w0.positions@[i2] is Some && pre.positions@[j]
                                == w0.positions@[i2];
                        assert(0 <= i2 < n && w0.positions@[i2] is Some && world.positions@[j]
                            == w0.positions@[i2]);
                    }
                }
                if drops_now(pre, ii) {
                    let t = drop_item_of(pre, ii);
                    assert(drops_any(w0, ii, t));
                    assert forall|j: int|
                        0 <= j < n && !(exists|k: int| 0 <= k < ii + 1 && drops_any(w0, k, j))
                        implies world.positions@[j] == w0.positions@[j] && world.backpacks@[j]
                        == w0.backpacks@[j] by {
                        assert(!drops_any(w0, ii, j));
                        assert(j != t);
                        assert(world.positions@[j] == pre.positions@[j]);
                        assert(world.backpacks@[j] == pre.backpacks@[j]);
                        assert(!(exists|k: int| 0 <= k < ii && drops_any(w0, k, j)));
                    }
                    if no_chained_drops(w0) {
                        assert(w0.drop_intents@[t] is None);
                        assert(pre.positions@[ii] == w0.positions@[ii]) by {
                            if exists|k: int| 0 <= k < ii && drops_any(w0, k, ii) {
                                let k = choose|k: int| 0 <= k < ii && drops_any(w0, k, ii);
                                assert(w0.drop_intents@[ii] is None);
                                assert(false);
                            }
                        }
                        assert(drops_from(w0, ii, t));
                        assert forall|j: int|
                            0 <= j < n && (exists|k: int| 0 <= k < ii + 1 && drops_from(w0, k, j))
                            implies world.backpacks@[j] is None && exists|k: int|
                            0 <= k < ii + 1 && drops_from(w0, k, j) && world.positions@[j]
                                == w0.positions@[k] by {
                            if j == t {
                                assert(world.positions@[j] == pre.positions@[ii]);
                                assert(drops_from(w0, ii, j) && world.positions@[j]
                                    == w0.positions@[ii]);
                            } else {
                                assert(world.positions@[j] == pre.positions@[j]);
                                assert(world.backpacks@[j] == pre.backpacks@[j]);
                                assert(!drops_from(w0, ii, j));
                                assert(exists|k: int|
                                    0 <= k < ii && drops_from(w0, k, j) && pre.positions@[j]
                                        == w0.positions@[k]);
                                let k = choose|k: int|
                                    0 <= k < ii && drops_from(w0, k, j) && pre.positions@[j]
                                        == w0.positions@[k];
                                assert(0 <= k < ii + 1 && drops_from(w0, k, j)
                                    && world.positions@[j] == w0.positions@[k]);
                            }
                        }
                        assert forall|j: int|
                            0 <= j < n && !(exists|k: int| 0 <= k < ii + 1 && drops_from(w0, k, j))
                            implies world.positions@[j] == w0.positions@[j]
                            && world.backpacks@[j] == w0.backpacks@[j] by {
                            assert(!drops_from(w0, ii, j));
                            assert(j != t);
                            assert(world.positions@[j] == pre.positions@[j]);
                            assert(world.backpacks@[j] == pre.backpacks@[j]);
                        }
                    }
                } else {
                    assert(world.positions@ == pre.positions@);
                    assert(world.backpacks@ == pre.backpacks@);
                    assert forall|j: int|
                        0 <= j < n && (exists|k: int| 0 <= k < ii + 1 && drops_any(w0, k, j))
                            && !(exists|k: int| 0 <= k < ii && drops_any(w0, k, j))
                        implies false || (world.positions@[j] == w0.positions@[j]
                        && world.backpacks@[j] == w0.backpacks@[j]) by {
                        assert(drops_any(w0, ii, j));
                        assert(pre.present_at(ii));
                        if no_chained_drops(w0) {
                        }
                    }
                    if no_chained_drops(w0) {
                        assert forall|j: int|
                            0 <= j < n && (exists|k: int| 0 <= k < ii + 1 && drops_from(w0, k, j))
                            implies world.backpacks@[j] is None && exists|k: int|
                            0 <= k < ii + 1 && drops_from(w0, k, j) && world.positions@[j]
                                == w0.positions@[k] by {
                            if drops_from(w0, ii, j) {
                                assert(pre.positions@[ii] == w0.positions@[ii]) by {
                                    if exists|k: int| 0 <= k < ii && drops_any(w0, k, ii) {
                                        let k = choose|k: int|
                                            0 <= k < ii && drops_any(w0, k, ii);
                                        assert(w0.drop_intents@[ii] is None);
                                        assert(false);
                                    }
                                }
                                assert(drops_now(pre, ii));
                                assert(false);
                            }
                            assert(exists|k: int|
                                0 <= k < ii && drops_from(w0, k, j) && pre.positions@[j]
                                    == w0.positions@[k]);
                            let k = choose|k: int|
                                0 <= k < ii && drops_from(w0, k, j) && pre.positions@[j]
                                    == w0.positions@[k];
                            assert(0 <= k < ii + 1 && drops_from(w0, k, j) && world.positions@[j]
                                == w0.positions@[k]);
                        }
                    }
                }
            }
            i = i + 1;
        }
        world.drop_intents.clear_all();
        proof {
            assert forall|j: int|
                0 <= j < world.n() && world.slots@[j].state is Free implies world.no_comps_at(
                j,
            ) by {
                assert(w0.slots@[j].state is Free);
                assert(w0.no_comps_at(j));
                if exists|k: int| 0 <= k < i && drops_any(w0, k, j) {
                    let k = choose|k: int| 0 <= k < i && drops_any(w0, k, j);
                    assert(w0.present_at(j));
                    assert(false);
                }
                assert(world.positions@[j] == w0.positions@[j]);
                assert(world.backpacks@[j] == w0.backpacks@[j]);
            }
        }
    }
}

/// Everything the collection pass guarantees, as one relation between the
/// before and after states (the pass's contract, verbatim).
pub open spec fn pickup_rel(w0: World, w1: World, l0: Seq<Seq<char>>, b: nat, l1: Seq<Seq<char>>, player: Entity) -> bool {
    &&& (w1.wf())
    &&& (w1.slots@ == w0.slots@)
    &&& (forall|i: int|
                #![trigger w1.pickup_intents@[i]]
                0 <= i < w0.n() ==> w1.pickup_intents@[i] is None)
    &&& (forall|j: int|
                #![trigger w1.positions@[j]]
                #![trigger w1.backpacks@[j]]
                0 <= j < w0.n() && !pickup_target(w0, j) ==> w1.positions@[j] == w0.positions@[j] && w1.backpacks@[j] == w0.backpacks@[j])
    &&& (forall|j: int|
                #![trigger w1.positions@[j]]
                #![trigger w1.backpacks@[j]]
                0 <= j < w0.n() && pickup_target(w0, j) ==> w1.positions@[j] is None && exists|i: int|
                    0 <= i < w0.n() && picks(w0, i, j) && w1.backpacks@[j] == Some(InBackpack { owner: pickup_owner(w0, i) }))
    &&& (w1.renderables@ == w0.renderables@)
    &&& (w1.names@ == w0.names@)
    &&& (w1.blockers@ == w0.blockers@)
    &&& (w1.items@ == w0.items@)
    &&& (w1.healing@ == w0.healing@)
    &&& (w1.consumables@ == w0.consumables@)
    &&& (w1.use_intents@ == w0.use_intents@)
    &&& (w1.drop_intents@ == w0.drop_intents@)
    &&& (w1.speeds@ == w0.speeds@)
    &&& (w1.combat_stats@ == w0.combat_stats@)
    &&& (w1.suffering@ == w0.suffering@)
    &&& (w1.melee_intents@ == w0.melee_intents@)
    &&& (w1.ranged@ == w0.ranged@)
    &&& (w1.inflicts@ == w0.inflicts@)
    &&& (w1.players@ == w0.players@)
    &&& (w1.viewsheds@ == w0.viewsheds@)
    &&& (w1.monsters@ == w0.monsters@)
    &&& (w1.markers@ == w0.markers@)
    &&& (w1.helpers@ == w0.helpers@)
    &&& (b == b)
    &&& ((forall|i: int|
                0 <= i < w0.n() ==> !player_picks(w0, player, i)) ==> l1 == l0)
    &&& (forall|i: int|
                (0 <= i < w0.n() && player_picks(w0, player, i) && (forall|i2: int|
                    0 <= i2 < w0.n() && i2 != i ==> !player_picks(
                        w0,
                        player,
                        i2,
                    ))) ==> l1 == log_push_spec(
                    l0,
                    b,
                    pickup_msg(w0, i),
                ))
}

/// Everything the use pass guarantees, as one relation between the before
/// and after states (the pass's contract, verbatim).
pub open spec fn use_rel(w0: World, w1: World, l0: Seq<Seq<char>>, b: nat, l1: Seq<Seq<char>>, player: Entity) -> bool {
    &&& (w1.wf())
    &&& (w1.n() == w0.n())
    &&& (forall|j: int|
                #![trigger w1.slots@[j]]
                0 <= j < w0.n() ==> w1.slots@[j] == used_slot_upto(
                    w0,
                    j,
                    w0.n(),
                ))
    &&& (forall|i: int|
                #![trigger w1.combat_stats@[i]]
                0 <= i < w0.n() ==> w1.combat_stats@[i] == used_stats(
                    w0,
                    i,
                ))
    &&& (forall|i: int|
                #![trigger w1.use_intents@[i]]
                0 <= i < w0.n() ==> w1.use_intents@[i] is None)
    &&& (w1.positions@ == w0.positions@)
    &&& (w1.renderables@ == w0.renderables@)
    &&& (w1.names@ == w0.names@)
    &&& (w1.blockers@ == w0.blockers@)
    &&& (w1.items@ == w0.items@)
    &&& (w1.backpacks@ == w0.backpacks@)
    &&& (w1.pickup_intents@ == w0.pickup_intents@)
    &&& (w1.healing@ == w0.healing@)
    &&& (w1.consumables@ == w0.consumables@)
    &&& (w1.drop_intents@ == w0.drop_intents@)
    &&& (w1.speeds@ == w0.speeds@)
    &&& (w1.suffering@ == w0.suffering@)
    &&& (w1.melee_intents@ == w0.melee_intents@)
    &&& (w1.ranged@ == w0.ranged@)
    &&& (w1.inflicts@ == w0.inflicts@)
    &&& (w1.players@ == w0.players@)
    &&& (w1.viewsheds@ == w0.viewsheds@)
    &&& (w1.monsters@ == w0.monsters@)
    &&& (w1.markers@ == w0.markers@)
    &&& (w1.helpers@ == w0.helpers@)
    &&& (b == b)
    &&& ((forall|i: int|
                0 <= i < w0.n() ==> !heal_logged(w0, player, i)) ==> l1 == l0)
    &&& (forall|i: int|
                (0 <= i < w0.n() && heal_logged(w0, player, i) && (forall|i2: int|
                    0 <= i2 < w0.n() && i2 != i ==> !heal_logged(w0, player, i2)))
                    ==> l1 == log_push_spec(
                    l0,
                    b,
                    drink_msg(w0, i),
                ))
}

/// Everything the drop pass guarantees, as one relation between the before
/// and after states (the pass's contract, verbatim).
pub open spec fn drop_rel(w0: World, w1: World, l0: Seq<Seq<char>>, b: nat, l1: Seq<Seq<char>>, player: Entity) -> bool {
    &&& (w1.wf())
    &&& (w1.slots@ == w0.slots@)
    &&& (forall|i: int|
                #![trigger w1.drop_intents@[i]]
                0 <= i < w0.n() ==> w1.drop_intents@[i] is None)
    &&& (forall|j: int|
                #![trigger w1.positions@[j]]
                #![trigger w1.backpacks@[j]]
                0 <= j < w0.n() && !drop_target(w0, j) ==> w1.positions@[j] == w0.positions@[j] && w1.backpacks@[j] == w0.backpacks@[j])
    &&& (forall|j: int|
                #![trigger w1.positions@[j]]
                #![trigger w1.backpacks@[j]]
                0 <= j < w0.n() ==> ((w1.positions@[j] == w0.positions@[j] && w1.backpacks@[j] == w0.backpacks@[j]) || (
                w1.positions@[j] is Some && w1.backpacks@[j] is None)))
    &&& (forall|j: int|
                #![trigger w1.positions@[j]]
                0 <= j < w0.n() && w1.positions@[j] is Some ==> exists|i: int|
                    0 <= i < w0.n() && w0.positions@[i] is Some && w1.positions@[j] == w0.positions@[i])
    &&& (no_chained_drops(w0) ==> forall|j: int|
                #![trigger w1.positions@[j]]
                #![trigger w1.backpacks@[j]]
                0 <= j < w0.n() && (exists|i: int|
                    0 <= i < w0.n() && drops_from(w0, i, j)) ==> w1.backpacks@[j] is None && exists|i: int|
                    0 <= i < w0.n() && drops_from(w0, i, j) && w1.positions@[j] == w0.positions@[i])
    &&& (no_chained_drops(w0) ==> forall|j: int|
                #![trigger w1.positions@[j]]
                #![trigger w1.backpacks@[j]]
                0 <= j < w0.n() && !(exists|i: int|
                    0 <= i < w0.n() && drops_from(w0, i, j)) ==> w1.positions@[j] == w0.positions@[j] && w1.backpacks@[j] == w0.backpacks@[j])
    &&& (w1.renderables@ == w0.renderables@)
    &&& (w1.names@ == w0.names@)
    &&& (w1.blockers@ == w0.blockers@)
    &&& (w1.items@ == w0.items@)
    &&& (w1.pickup_intents@ == w0.pickup_intents@)
    &&& (w1.healing@ == w0.healing@)
    &&& (w1.consumables@ == w0.consumables@)
    &&& (w1.use_intents@ == w0.use_intents@)
    &&& (w1.speeds@ == w0.speeds@)
    &&& (w1.combat_stats@ == w0.combat_stats@)
    &&& (w1.suffering@ == w0.suffering@)
    &&& (w1.melee_intents@ == w0.melee_intents@)
    &&& (w1.ranged@ == w0.ranged@)
    &&& (w1.inflicts@ == w0.inflicts@)
    &&& (w1.players@ == w0.players@)
    &&& (w1.viewsheds@ == w0.viewsheds@)
    &&& (w1.monsters@ == w0.monsters@)
    &&& (w1.markers@ == w0.markers@)
    &&& (w1.helpers@ == w0.helpers@)
    &&& (b == b)
    &&& ((forall|i: int|
                0 <= i < w0.n() ==> !drop_logged(w0, player, i)) ==> l1 == l0)
    &&& (no_chained_drops(w0) ==> forall|i: int|
                (0 <= i < w0.n() && drop_msg_due(w0, player, i) && (forall|
                    i2: int,
                |
                    0 <= i2 < w0.n() && i2 != i ==> !drop_logged(w0, player, i2)))
                    ==> l1 == log_push_spec(
                    l0,
                    b,
                    drop_msg(w0, i),
                ))
}

} // verus!
