//! Melee resolution: every pending melee intent of a living, named attacker
//! against a living target turns into damage `max(0, power - defense)`
//! appended to the target's accumulator. A zero-damage swing and an intent
//! against a stale or statless target are dropped; either way the whole
//! intent set is consumed.

use vstd::prelude::*;

use crate::components::SufferDamage;
use crate::components::suffer_amounts;
use crate::entity::SlotState;
use crate::gamelog::GameLog;
use crate::gamelog::log_push_spec;
use crate::util::dec_of;
use crate::util::sum_i32;
use crate::world::World;

verus! {

/// Damage of one melee swing, clamped into `[0, i32::MAX]`.
pub open spec fn melee_damage(power: int, defense: int) -> int {
    if power - defense <= 0 {
        0
    } else if power - defense > i32::MAX {
        i32::MAX as int
    } else {
        power - defense
    }
}

/// The attacker-side conditions: a present entity with a pending melee
/// intent, a name, and combat stats showing it still alive.
pub open spec fn melee_attacker(w: World, i: int) -> bool {
    &&& w.present_at(i)
    &&& w.melee_intents@[i] is Some
    &&& w.names@[i] is Some
    &&& match w.combat_stats@[i] {
        Some(cs) => cs.hp > 0,
        None => false,
    }
}

/// Whether attacker `i` lands a hit on the slot `t`: the intent's target
/// resolves to that living slot and the damage formula is positive.
pub open spec fn melee_hits(w: World, i: int, t: int) -> bool {
    &&& melee_attacker(w, i)
    &&& {
        let target = w.melee_intents@[i]->Some_0.target;
        &&& w.valid(target)
        &&& target.index == t
        &&& match (w.combat_stats@[i], w.combat_stats@[t]) {
            (Some(a), Some(d)) => d.hp > 0 && melee_damage(a.power as int, d.defense as int) > 0,
            _ => false,
        }
    }
}

/// The damage attacker `i` would append to slot `t`'s accumulator.
pub open spec fn melee_hit_amount(w: World, i: int, t: int) -> i32 {
    (match (w.combat_stats@[i], w.combat_stats@[t]) {
        (Some(a), Some(d)) => melee_damage(a.power as int, d.defense as int),
        _ => 0,
    }) as i32
}

/// The damage amounts appended to slot `t` by the attackers below `upto`, in
/// attacker-index order.
pub open spec fn melee_adds(w: World, t: int, upto: int) -> Seq<i32>
    decreases upto,
{
    if upto <= 0 {
        Seq::empty()
    } else if melee_hits(w, upto - 1, t) {
        melee_adds(w, t, upto - 1).push(melee_hit_amount(w, upto - 1, t))
    } else {
        melee_adds(w, t, upto - 1)
    }
}

/// Every appended amount is positive, so the sum over a defender is exactly
/// the total damage its attackers dealt.
pub proof fn lemma_melee_adds_sum_nonneg(w: World, t: int, upto: int)
    ensures
        sum_i32(melee_adds(w, t, upto)) >= 0,
    decreases upto,
{
    if upto > 0 {
        lemma_melee_adds_sum_nonneg(w, t, upto - 1);
        if melee_hits(w, upto - 1, t) {
            assert(melee_adds(w, t, upto).drop_last() =~= melee_adds(w, t, upto - 1));
        }
    }
}

/// A freed slot is never a valid target, so no attacker appends to it.
proof fn lemma_melee_adds_free(w: World, t: int, upto: int)
    requires
        0 <= t < w.n(),
        w.slots@[t].state is Free,
    ensures
        melee_adds(w, t, upto).len() == 0,
    decreases upto,
{
    if upto > 0 {
        lemma_melee_adds_free(w, t, upto - 1);
        assert(!melee_hits(w, upto - 1, t));
    }
}

/// Attacker `i` swings at a live, named target this pass: whether it lands
/// or misses, a message is logged.
pub open spec fn melee_swings(w: World, i: int) -> bool {
    &&& melee_attacker(w, i)
    &&& {
        let target = w.melee_intents@[i]->Some_0.target;
        &&& w.valid(target)
        &&& w.names@[target.index as int] is Some
        &&& match w.combat_stats@[target.index as int] {
            Some(d) => d.hp > 0,
            None => false,
        }
    }
}

/// The message attacker `i`'s swing leaves in the log: the hit with its
/// damage, or the miss.
pub open spec fn melee_msg(w: World, i: int) -> Seq<char> {
    let t = w.melee_intents@[i]->Some_0.target.index as int;
    let a_name = w.names@[i]->Some_0.name@;
    let t_name = w.names@[t]->Some_0.name@;
    let dmg = melee_damage(
        w.combat_stats@[i]->Some_0.power as int,
        w.combat_stats@[t]->Some_0.defense as int,
    );
    if dmg > 0 {
        a_name + " hits "@ + t_name + ", for "@ + dec_of(dmg as nat) + " hp."@
    } else {
        a_name + " is unable to hurt "@ + t_name
    }
}

/// The log after the swings of the attackers below `upto`, in slot order.
pub open spec fn melee_log(w: World, l: Seq<Seq<char>>, bound: nat, upto: int) -> Seq<Seq<char>>
    decreases upto,
{
    if upto <= 0 {
        l
    } else if melee_swings(w, upto - 1) {
        log_push_spec(melee_log(w, l, bound, upto - 1), bound, melee_msg(w, upto - 1))
    } else {
        melee_log(w, l, bound, upto - 1)
    }
}

pub struct MeleeCombatSystem {}

impl MeleeCombatSystem {
    /// Resolves every pending melee intent into accumulated damage and clears
    /// the intent set, whether or not each individual swing landed.
    pub fn run(world: &mut World, log: &mut GameLog)
        requires
            old(world).wf(),
        ensures
            final(log).bound() == old(log).bound(),
            final(log)@ == melee_log(*old(world), old(log)@, old(log).bound(), old(world).n()),
            melee_rel(*old(world), *final(world), old(log)@, old(log).bound(), final(log)@),
            final(world).wf(),
            final(world).slots@ == old(world).slots@,
            forall|t: int|
                #![trigger final(world).suffering@[t]]
                0 <= t < old(world).n() ==> suffer_amounts(final(world).suffering@[t])
                    == suffer_amounts(old(world).suffering@[t]) + melee_adds(
                    *old(world),
                    t,
                    old(world).n(),
                ),
            forall|t: int|
                #![trigger final(world).suffering@[t]]
                0 <= t < old(world).n() ==> (final(world).suffering@[t] is Some <==> (old(
                    world,
                ).suffering@[t] is Some || melee_adds(*old(world), t, old(world).n()).len() > 0)),
            forall|i: int|
                #![trigger final(world).melee_intents@[i]]
                0 <= i < old(world).n() ==> final(world).melee_intents@[i] is None,
            final(world).positions@ == old(world).positions@,
            final(world).renderables@ == old(world).renderables@,
            final(world).names@ == old(world).names@,
            final(world).blockers@ == old(world).blockers@,
            final(world).items@ == old(world).items@,
            final(world).backpacks@ == old(world).backpacks@,
            final(world).pickup_intents@ == old(world).pickup_intents@,
            final(world).healing@ == old(world).healing@,
            final(world).consumables@ == old(world).consumables@,
            final(world).use_intents@ == old(world).use_intents@,
            final(world).drop_intents@ == old(world).drop_intents@,
            final(world).speeds@ == old(world).speeds@,
            final(world).combat_stats@ == old(world).combat_stats@,
            final(world).ranged@ == old(world).ranged@,
            final(world).inflicts@ == old(world).inflicts@,
            final(world).players@ == old(world).players@,
            final(world).viewsheds@ == old(world).viewsheds@,
            final(world).monsters@ == old(world).monsters@,
            final(world).markers@ == old(world).markers@,
            final(world).helpers@ == old(world).helpers@,
    {
        let ghost w0 = *old(world);
        let ghost l0 = old(log)@;
        let ghost bound = old(log).bound();
        let n = world.slots.len();
        let mut i: usize = 0;
        while i < n
            invariant
                w0.wf(),
                world.wf(),
                n == w0.n(),
                world.n() == n,
                i <= n,
                log.bound() == bound,
                log@ == melee_log(w0, l0, bound, i as int),
                world.slots@ == w0.slots@,
                forall|t: int|
                    #![trigger world.suffering@[t]]
                    0 <= t < n ==> suffer_amounts(world.suffering@[t]) == suffer_amounts(
                        w0.suffering@[t],
                    ) + melee_adds(w0, t, i as int),
                forall|t: int|
                    #![trigger world.suffering@[t]]
                    0 <= t < n ==> (world.suffering@[t] is Some <==> (w0.suffering@[t] is Some
                        || melee_adds(w0, t, i as int).len() > 0)),
                world.positions@ == w0.positions@,
                world.renderables@ == w0.renderables@,
                world.names@ == w0.names@,
                world.blockers@ == w0.blockers@,
                world.items@ == w0.items@,
                world.backpacks@ == w0.backpacks@,
                world.pickup_intents@ == w0.pickup_intents@,
                world.healing@ == w0.healing@,
                world.consumables@ == w0.consumables@,
                world.use_intents@ == w0.use_intents@,
                world.drop_intents@ == w0.drop_intents@,
                world.speeds@ == w0.speeds@,
                world.combat_stats@ == w0.combat_stats@,
                world.melee_intents@ == w0.melee_intents@,
                world.ranged@ == w0.ranged@,
                world.inflicts@ == w0.inflicts@,
                world.players@ == w0.players@,
                world.viewsheds@ == w0.viewsheds@,
                world.monsters@ == w0.monsters@,
                world.markers@ == w0.markers@,
                world.helpers@ == w0.helpers@,
            decreases n - i,
        {
            let ghost pre = *world;
            let slot = world.slots[i];
            let mut attack: Option<(usize, i32)> = None;
            let mut swing: Option<(usize, i32)> = None;
            if !matches!(slot.state, SlotState::Free) {
                if let Some(intent) = world.melee_intents.get(i) {
                    let target = intent.target;
                    let has_name = match world.names.get(i) {
                        Some(_) => true,
                        None => false,
                    };
                    if has_name {
                        if let Some(cs) = world.combat_stats.get(i) {
                            if cs.hp > 0 {
                                let power = cs.power;
                                if world.is_valid(target) {
                                    if let Some(ts) = world.combat_stats.get(target.index) {
                                        if ts.hp > 0 {
                                            let d64 = power as i64 - ts.defense as i64;
                                            let dmg: i32 = if d64 <= 0 {
                                                0
                                            } else if d64 > i32::MAX as i64 {
                                                i32::MAX
                                            } else {
                                                d64 as i32
                                            };
                                            let target_named = match world.names.get(target.index) {
                                                Some(_) => true,
                                                None => false,
                                            };
                                            if target_named {
                                                swing = Some((target.index, dmg));
                                            }
                                            if dmg > 0 {
                                                attack = Some((target.index, dmg));
                                            }
                                        }
                                    }
                                }
                            }
                        }
                    }
                }
            }
            match swing {
                Some((t, dmg)) => {
                    proof {
                        assert(melee_swings(w0, i as int));
                        assert(melee_damage(
                            w0.combat_stats@[i as int]->Some_0.power as int,
                            w0.combat_stats@[t as int]->Some_0.defense as int,
                        ) == dmg);
                    }
                    let a_name = match world.names.get(i) {
                        Some(nm) => nm.name.clone(),
                        None => String::new(),
                    };
                    let t_name = match world.names.get(t) {
                        Some(nm) => nm.name.clone(),
                        None => String::new(),
                    };
                    let mut msg = a_name;
                    if dmg > 0 {
                        msg.append(" hits ");
                        msg.append(t_name.as_str());
                        msg.append(", for ");
                        let amount = crate::util::format_u32(dmg as u32);
                        msg.append(amount.as_str());
                        msg.append(" hp.");
                    } else {
                        msg.append(" is unable to hurt ");
                        msg.append(t_name.as_str());
                    }
                    proof {
                        assert(msg@ == melee_msg(w0, i as int));
                    }
                    log.push(msg);
                },
                None => {
                    proof {
                        assert(!melee_swings(w0, i as int));
                    }
                },
            }
            match attack {
                Some((t, dmg)) => {
                    proof {
                        assert(melee_hits(w0, i as int, t as int));
                        assert(melee_hit_amount(w0, i as int, t as int) == dmg);
                    }
                    SufferDamage::new_damage(
                        &mut world.suffering,
                        crate::entity::Entity { index: t, gen: world.slots[t].gen },
                        dmg,
                    );
                    proof {
                        assert forall|u: int|
                            0 <= u < n implies suffer_amounts(world.suffering@[u])
                            == suffer_amounts(w0.suffering@[u]) + melee_adds(w0, u, i + 1) by {
                            if u == t {
                                assert(suffer_amounts(world.suffering@[u]) == suffer_amounts(
                                    pre.suffering@[u],
                                ).push(dmg));
                                assert(melee_adds(w0, u, i + 1) == melee_adds(w0, u, i as int).push(
                                    dmg,
                                ));
                                assert(suffer_amounts(w0.suffering@[u]) + melee_adds(w0, u, i as int).push(dmg)
                                    =~= (suffer_amounts(w0.suffering@[u]) + melee_adds(w0, u, i as int)).push(dmg));
                            } else {
                                assert(world.suffering@[u] == pre.suffering@[u]);
                                assert(melee_adds(w0, u, i + 1) == melee_adds(w0, u, i as int));
                            }
                        }
                        assert forall|j: int|
                            0 <= j < world.n() && world.slots@[j].state is Free
                            implies world.no_comps_at(j) by {
                            assert(pre.no_comps_at(j));
                        }
                    }
                },
                None => {
                    proof {
                        assert forall|u: int| 0 <= u < n implies melee_adds(w0, u, i + 1)
                            == melee_adds(w0, u, i as int) by {
                            assert(!melee_hits(w0, i as int, u));
                        }
                    }
                },
            }
            i = i + 1;
        }
        world.melee_intents.clear_all();
        proof {
            assert forall|j: int|
                0 <= j < world.n() && world.slots@[j].state is Free implies world.no_comps_at(
                j,
            ) by {
                assert(w0.no_comps_at(j));
                lemma_melee_adds_free(w0, j, n as int);
            }
        }
    }
}

/// Everything melee resolution guarantees, as one relation between the
/// before and after states (the pass's contract, verbatim).
pub open spec fn melee_rel(w0: World, w1: World, l0: Seq<Seq<char>>, b: nat, l1: Seq<Seq<char>>) -> bool {
    &&& (b == b)
    &&& (l1 == melee_log(w0, l0, b, w0.n()))
    &&& (w1.wf())
    &&& (w1.slots@ == w0.slots@)
    &&& (forall|t: int|
                #![trigger w1.suffering@[t]]
                0 <= t < w0.n() ==> suffer_amounts(w1.suffering@[t])
                    == suffer_amounts(w0.suffering@[t]) + melee_adds(
                    w0,
                    t,
                    w0.n(),
                ))
    &&& (forall|t: int|
                #![trigger w1.suffering@[t]]
                0 <= t < w0.n() ==> (w1.suffering@[t] is Some <==> (w0.suffering@[t] is Some || melee_adds(w0, t, w0.n()).len() > 0)))
    &&& (forall|i: int|
                #![trigger w1.melee_intents@[i]]
                0 <= i < w0.n() ==> w1.melee_intents@[i] is None)
    &&& (w1.positions@ == w0.positions@)
    &&& (w1.renderables@ == w0.renderables@)
    &&& (w1.names@ == w0.names@)
    &&& (w1.blockers@ == w0.blockers@)
    &&& (w1.items@ == w0.items@)
    &&& (w1.backpacks@ == w0.backpacks@)
    &&& (w1.pickup_intents@ == w0.pickup_intents@)
    &&& (w1.healing@ == w0.healing@)
    &&& (w1.consumables@ == w0.consumables@)
    &&& (w1.use_intents@ == w0.use_intents@)
    &&& (w1.drop_intents@ == w0.drop_intents@)
    &&& (w1.speeds@ == w0.speeds@)
    &&& (w1.combat_stats@ == w0.combat_stats@)
    &&& (w1.ranged@ == w0.ranged@)
    &&& (w1.inflicts@ == w0.inflicts@)
    &&& (w1.players@ == w0.players@)
    &&& (w1.viewsheds@ == w0.viewsheds@)
    &&& (w1.monsters@ == w0.monsters@)
    &&& (w1.markers@ == w0.markers@)
    &&& (w1.helpers@ == w0.helpers@)
}

} // verus!
