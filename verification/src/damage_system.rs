//! Damage resolution and the dead-entity sweep. Damage resolution folds each
//! entity's accumulated pending amounts into its hit points in one mutation
//! and clears every accumulator unconditionally; the sweep queues entities at
//! zero-or-less hit points for deferred destruction, except the player, whose
//! death is only logged.

use vstd::prelude::*;

use crate::components::CombatStats;
use crate::components::suffer_amounts;
use crate::entity::Entity;
use crate::entity::Slot;
use crate::entity::SlotState;
use crate::gamelog::GameLog;
use crate::gamelog::log_push_spec;
use crate::util::clamp_i32;
use crate::util::sum_i32;
use crate::world::World;

verus! {

/// What damage resolution leaves in an entity's combat stats: hit points
/// lowered by the summed pending damage (clamped into the 32-bit range),
/// everything else untouched.
pub open spec fn damaged_stats(w: World, i: int) -> Option<CombatStats> {
    match w.combat_stats@[i] {
        Some(cs) => {
            if w.present_at(i) && w.suffering@[i] is Some {
                Some(
                    CombatStats {
                        hp: clamp_i32(cs.hp - sum_i32(suffer_amounts(w.suffering@[i]))) as i32,
                        ..cs
                    },
                )
            } else {
                Some(cs)
            }
        },
        None => None,
    }
}

pub struct DamageSystem {}

impl DamageSystem {
    /// Applies every pending damage accumulator to its owner's hit points and
    /// clears the whole accumulator storage.
    pub fn run(world: &mut World)
        requires
            old(world).wf(),
        ensures
            final(world).wf(),
            final(world).slots@ == old(world).slots@,
            forall|i: int|
                #![trigger final(world).combat_stats@[i]]
                0 <= i < old(world).n() ==> final(world).combat_stats@[i] == damaged_stats(
                    *old(world),
                    i,
                ),
            forall|i: int|
                #![trigger final(world).suffering@[i]]
                0 <= i < old(world).n() ==> final(world).suffering@[i] is None,
            final(world).positions@ == old(world).positions@,
            final(world).renderables@ == old(world).renderables@,
            final(world).names@ == old(world).names@,
            final(world).blockers@ == old(world).blockers@,
            final(world).items@ == old(world).items@,
            final(world).backpacks@ == old(world).backpacks@,
            final(world).pickup_intents@ == old(world).pickup_intents@,
            final(world).healing@ == old(world).healing@,
            final(world).consumables@ == old(world).consumables@,
            final(world).use_intents@ == old(world).use_intents@,
            final(world).drop_intents@ == old(world).drop_intents@,
            final(world).speeds@ == old(world).speeds@,
            final(world).melee_intents@ == old(world).melee_intents@,
            final(world).ranged@ == old(world).ranged@,
            final(world).inflicts@ == old(world).inflicts@,
            final(world).players@ == old(world).players@,
            final(world).viewsheds@ == old(world).viewsheds@,
            final(world).monsters@ == old(world).monsters@,
            final(world).markers@ == old(world).markers@,
            final(world).helpers@ == old(world).helpers@,
            damage_rel(*old(world), *final(world)),
    {
        let ghost w0 = *old(world);
        let n = world.slots.len();
        let mut i: usize = 0;
        while i < n
            invariant
                w0.wf(),
                world.wf(),
                n == w0.n(),
                world.n() == n,
                i <= n,
                world.slots@ == w0.slots@,
                world.suffering@ == w0.suffering@,
                forall|j: int|
                    #![trigger world.combat_stats@[j]]
                    0 <= j < i ==> world.combat_stats@[j] == damaged_stats(w0, j),
                forall|j: int|
                    #![trigger world.combat_stats@[j]]
                    i <= j < n ==> world.combat_stats@[j] == w0.combat_stats@[j],
                world.positions@ == w0.positions@,
                world.renderables@ == w0.renderables@,
                world.names@ == w0.names@,
                world.blockers@ == w0.blockers@,
                world.items@ == w0.items@,
                world.backpacks@ == w0.backpacks@,
                world.pickup_intents@ == w0.pickup_intents@,
                world.healing@ == w0.healing@,
                world.consumables@ == w0.consumables@,
                world.use_intents@ == w0.use_intents@,
                world.drop_intents@ == w0.drop_intents@,
                world.speeds@ == w0.speeds@,
                world.melee_intents@ == w0.melee_intents@,
                world.ranged@ == w0.ranged@,
                world.inflicts@ == w0.inflicts@,
                world.players@ == w0.players@,
                world.viewsheds@ == w0.viewsheds@,
                world.monsters@ == w0.monsters@,
                world.markers@ == w0.markers@,
                world.helpers@ == w0.helpers@,
            decreases n - i,
        {
            let ghost pre = *world;
            let slot = world.slots[i];
            if !matches!(slot.state, SlotState::Free) {
                let has_suffering = match world.suffering.get(i) {
                    Some(_) => true,
                    None => false,
                };
                if has_suffering {
                    if let Some(cs) = world.combat_stats.get(i) {
                        let cs = *cs;
                        let total: i128 = match world.suffering.get(i) {
                            Some(sd) => crate::util::sum_amounts(&sd.amount),
                            None => 0,
                        };
                        let hp128 = cs.hp as i128 - total;
                        let new_hp: i32 = if hp128 < i32::MIN as i128 {
                            i32::MIN
                        } else if hp128 > i32::MAX as i128 {
                            i32::MAX
                        } else {
                            hp128 as i32
                        };
                        world.combat_stats.set(i, Some(CombatStats { hp: new_hp, ..cs }));
                        proof {
                            assert(world.combat_stats@[i as int] == damaged_stats(w0, i as int));
                            assert forall|j: int|
                                0 <= j < world.n() && world.slots@[j].state is Free
                                implies world.no_comps_at(j) by {
                                assert(pre.no_comps_at(j));
                                assert(!pre.present_at(i as int) ==> false);
                            }
                        }
                    }
                }
            }
            i = i + 1;
        }
        world.suffering.clear_all();
        proof {
            assert forall|j: int|
                0 <= j < world.n() && world.slots@[j].state is Free implies world.no_comps_at(
                j,
            ) by {
                assert(w0.no_comps_at(j));
            }
        }
    }
}

/// The dead sweep's effect on one slot: an entity at less than one hit point
/// that is not the player is queued for destruction; the player's slot (and
/// every other slot) is left as it was.
pub open spec fn swept_slot(w: World, i: int) -> Slot {
    if w.present_at(i) && doomed(w, i) && w.players@[i] is None && w.slots@[i].state is Alive {
        Slot { gen: w.slots@[i].gen, state: SlotState::Dying }
    } else {
        w.slots@[i]
    }
}

/// The sweep condition: the entity carries combat stats with hp below one.
pub open spec fn doomed(w: World, i: int) -> bool {
    match w.combat_stats@[i] {
        Some(cs) => cs.hp < 1,
        None => false,
    }
}

/// Whether some slot under `k` holds a doomed player, which the sweep logs.
pub open spec fn has_doomed_player_upto(w: World, k: int) -> bool {
    exists|j: int| 0 <= j < k && w.present_at(j) && doomed(w, j) && w.players@[j] is Some
}

/// Queues every dead non-player entity for (deferred) destruction; a dead
/// player is only reported in the log and survives. Destroying is
/// idempotent: a slot already dying stays exactly as it is.
pub fn delete_the_dead(world: &mut World, log: &mut GameLog)
    requires
        old(world).wf(),
        // the single-player invariant: at most one entity carries the tag
        forall|j: int, k: int|
            0 <= j < old(world).n() && 0 <= k < old(world).n() && old(world).players@[j] is Some
                && old(world).players@[k] is Some ==> j == k,
    ensures
        final(world).wf(),
        final(world).n() == old(world).n(),
        forall|i: int|
            #![trigger final(world).slots@[i]]
            0 <= i < old(world).n() ==> final(world).slots@[i] == swept_slot(*old(world), i),
        forall|j: int|
            0 <= j < old(world).n() ==> World::comps_eq_at(*old(world), *final(world), j),
        final(log).bound() == old(log).bound(),
        has_doomed_player_upto(*old(world), old(world).n()) ==> final(log)@ == log_push_spec(
            old(log)@,
            old(log).bound(),
            "You are dead!"@,
        ),
        !has_doomed_player_upto(*old(world), old(world).n()) ==> final(log)@ == old(log)@,
        sweep_rel(*old(world), *final(world), old(log)@, old(log).bound(), final(log)@),
{
    let ghost w0 = *old(world);
    let n = world.slots.len();
    let mut i: usize = 0;
    while i < n
        invariant
            w0.wf(),
            world.wf(),
            n == w0.n(),
            world.n() == n,
            i <= n,
            forall|j: int, k: int|
                0 <= j < n && 0 <= k < n && w0.players@[j] is Some && w0.players@[k] is Some ==> j
                    == k,
            forall|j: int|
                #![trigger world.slots@[j]]
                0 <= j < i ==> world.slots@[j] == swept_slot(w0, j),
            forall|j: int| #![trigger world.slots@[j]] i <= j < n ==> world.slots@[j] == w0.slots@[j],
            forall|j: int| 0 <= j < n ==> World::comps_eq_at(w0, *world, j),
            log.bound() == old(log).bound(),
            has_doomed_player_upto(w0, i as int) ==> log@ == log_push_spec(
                old(log)@,
                old(log).bound(),
                "You are dead!"@,
            ),
            !has_doomed_player_upto(w0, i as int) ==> log@ == old(log)@,
        decreases n - i,
    {
        let ghost pre = *world;
        let slot = world.slots[i];
        if !matches!(slot.state, SlotState::Free) {
            let is_doomed = match world.combat_stats.get(i) {
                Some(cs) => cs.hp < 1,
                None => false,
            };
            if is_doomed {
                let is_player = match world.players.get(i) {
                    Some(_) => true,
                    None => false,
                };
                if is_player {
                    proof {
                        assert(World::comps_eq_at(w0, *world, i as int));
                        assert(w0.present_at(i as int) && doomed(w0, i as int)
                            && w0.players@[i as int] is Some);
                        if has_doomed_player_upto(w0, i as int) {
                            let j = choose|j: int|
                                0 <= j < i && w0.present_at(j) && doomed(w0, j) && w0.players@[j]
                                    is Some;
                            assert(j == i as int);
                        }
                        assert(!has_doomed_player_upto(w0, i as int));
                    }
                    log.push(String::from_str("You are dead!"));
                    proof {
                        assert(has_doomed_player_upto(w0, i + 1));
                    }
                } else {
                    proof {
                        assert(pre.slots@[i as int] == w0.slots@[i as int]);
                        assert(World::comps_eq_at(w0, pre, i as int));
                    }
                    world.destroy(Entity { index: i, gen: slot.gen });
                    proof {
                        assert(world.slots@[i as int] == swept_slot(w0, i as int));
                        assert forall|j: int| 0 <= j < n implies World::comps_eq_at(
                            w0,
                            *world,
                            j,
                        ) by {
                            assert(World::comps_eq_at(w0, pre, j));
                            assert(World::comps_eq_at(pre, *world, j));
                        }
                    }
                }
            }
        }
        proof {
            assert(pre.slots@[i as int] == w0.slots@[i as int]);
            assert(World::comps_eq_at(w0, pre, i as int));
            if has_doomed_player_upto(w0, i + 1) && !has_doomed_player_upto(w0, i as int) {
                let j = choose|j: int|
                    0 <= j < i + 1 && w0.present_at(j) && doomed(w0, j) && w0.players@[j] is Some;
                assert(j == i as int);
                assert(w0.present_at(i as int) && doomed(w0, i as int) && w0.players@[i as int]
                    is Some);
            }
        }
        i = i + 1;
    }
}

/// Dead-sweep idempotence: sweeping a world that one sweep already produced
/// changes no slot, because every doomed non-player is already dying.
pub proof fn lemma_sweep_idempotent(a: World, b: World)
    requires
        a.n() == b.n(),
        forall|i: int| #![trigger b.slots@[i]] 0 <= i < a.n() ==> b.slots@[i] == swept_slot(a, i),
        forall|i: int| 0 <= i < a.n() ==> World::comps_eq_at(a, b, i),
    ensures
        forall|i: int| #![trigger b.slots@[i]] 0 <= i < b.n() ==> swept_slot(b, i) == b.slots@[i],
{
    assert forall|i: int| 0 <= i < b.n() implies swept_slot(b, i) == b.slots@[i] by {
        assert(World::comps_eq_at(a, b, i));
        assert(b.slots@[i] == swept_slot(a, i));
    }
}

/// Damage accumulation: when N attackers strike one defender in a turn whose
/// accumulators started empty, the defender's post-resolution hit points are
/// its pre-turn hit points minus the summed damage (as long as that stays in
/// the 32-bit range), and every accumulator ends the turn empty.
pub proof fn lemma_damage_accumulation(w0: World, w1: World, w2: World, t: int)
    requires
        0 <= t < w0.n(),
        w0.n() == w1.n(),
        // accumulators are empty at turn start
        w0.suffering@[t] is None,
        // what melee resolution left, as its contract states it
        suffer_amounts(w1.suffering@[t]) == suffer_amounts(w0.suffering@[t])
            + crate::melee_combat_system::melee_adds(w0, t, w0.n()),
        w1.combat_stats@[t] == w0.combat_stats@[t],
        w1.slots@ == w0.slots@,
        // what damage resolution left, as its contract states it
        w2.combat_stats@[t] == damaged_stats(w1, t),
        // the defender exists and the subtraction stays representable
        w1.present_at(t),
        w1.suffering@[t] is Some,
        w0.combat_stats@[t] is Some,
        w0.combat_stats@[t]->Some_0.hp - crate::util::sum_i32(
            crate::melee_combat_system::melee_adds(w0, t, w0.n()),
        ) >= i32::MIN,
    ensures
        w2.combat_stats@[t] matches Some(cs) && cs.hp == w0.combat_stats@[t]->Some_0.hp
            - crate::util::sum_i32(crate::melee_combat_system::melee_adds(w0, t, w0.n())),
{
    let adds = crate::melee_combat_system::melee_adds(w0, t, w0.n());
    crate::melee_combat_system::lemma_melee_adds_sum_nonneg(w0, t, w0.n());
    assert(suffer_amounts(w0.suffering@[t]) =~= Seq::<i32>::empty());
    assert(suffer_amounts(w1.suffering@[t]) =~= Seq::<i32>::empty() + adds);
    assert(Seq::<i32>::empty() + adds =~= adds);
    assert(clamp_i32(w0.combat_stats@[t]->Some_0.hp - sum_i32(adds)) == w0.combat_stats@[t]->Some_0.hp
        - sum_i32(adds));
}

/// Everything damage resolution guarantees, as one relation between the
/// before and after states (the pass's contract, verbatim).
pub open spec fn damage_rel(w0: World, w1: World) -> bool {
    &&& (w1.wf())
    &&& (w1.slots@ == w0.slots@)
    &&& (forall|i: int|
                #![trigger w1.combat_stats@[i]]
                0 <= i < w0.n() ==> w1.combat_stats@[i] == damaged_stats(
                    w0,
                    i,
                ))
    &&& (forall|i: int|
                #![trigger w1.suffering@[i]]
                0 <= i < w0.n() ==> w1.suffering@[i] is None)
    &&& (w1.positions@ == w0.positions@)
    &&& (w1.renderables@ == w0.renderables@)
    &&& (w1.names@ == w0.names@)
    &&& (w1.blockers@ == w0.blockers@)
    &&& (w1.items@ == w0.items@)
    &&& (w1.backpacks@ == w0.backpacks@)
    &&& (w1.pickup_intents@ == w0.pickup_intents@)
    &&& (w1.healing@ == w0.healing@)
    &&& (w1.consumables@ == w0.consumables@)
    &&& (w1.use_intents@ == w0.use_intents@)
    &&& (w1.drop_intents@ == w0.drop_intents@)
    &&& (w1.speeds@ == w0.speeds@)
    &&& (w1.melee_intents@ == w0.melee_intents@)
    &&& (w1.ranged@ == w0.ranged@)
    &&& (w1.inflicts@ == w0.inflicts@)
    &&& (w1.players@ == w0.players@)
    &&& (w1.viewsheds@ == w0.viewsheds@)
    &&& (w1.monsters@ == w0.monsters@)
    &&& (w1.markers@ == w0.markers@)
    &&& (w1.helpers@ == w0.helpers@)
}

/// Everything the dead sweep guarantees (under the single-player-tag
/// premise), as one relation between the before and after states.
pub open spec fn sweep_rel(w0: World, w1: World, l0: Seq<Seq<char>>, b: nat, l1: Seq<Seq<char>>) -> bool {
    &&& (w1.wf())
    &&& (w1.n() == w0.n())
    &&& (forall|i: int|
            #![trigger w1.slots@[i]]
            0 <= i < w0.n() ==> w1.slots@[i] == swept_slot(w0, i))
    &&& (forall|j: int|
            0 <= j < w0.n() ==> World::comps_eq_at(w0, w1, j))
    &&& (b == b)
    &&& (has_doomed_player_upto(w0, w0.n()) ==> l1 == log_push_spec(
            l0,
            b,
            "You are dead!"@,
        ))
    &&& (!has_doomed_player_upto(w0, w0.n()) ==> l1 == l0)
}

} // verus!
