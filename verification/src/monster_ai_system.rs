//! Monster intent generation: every named monster that sees the player and
//! passes its movement-rate gate either attacks (when already adjacent) or
//! takes one step along a path toward the player, dirtying its viewshed. A
//! monster with no path idles; that is not an error.

use vstd::prelude::*;

use crate::components::MovementSpeed;
use crate::components::Point;
use crate::components::Position;
use crate::components::Viewshed;
use crate::components::WantsToMelee;
use crate::entity::Entity;
use crate::entity::SlotState;
use crate::map::GameMap;
use crate::map_indexing_system::positions_in_bounds;
use crate::movement_util::can_move;
use crate::movement_util::move_allowed;
use crate::pathfind::find_path;
use crate::pathfind::point_adjacent;
use crate::world::World;

verus! {

/// The monster-side join: a present entity tagged as monster, with viewshed,
/// position, name and movement limiter.
pub open spec fn monster_ready(w: World, i: int) -> bool {
    &&& w.present_at(i)
    &&& w.monsters@[i] is Some
    &&& w.viewsheds@[i] is Some
    &&& w.positions@[i] is Some
    &&& w.names@[i] is Some
    &&& w.speeds@[i] is Some
}

/// The monster's cached field of view contains the player's cell.
pub open spec fn sees_player(w: World, i: int, player_pos: Point) -> bool {
    monster_ready(w, i) && w.viewsheds@[i]->Some_0.visible_tiles@.contains(player_pos)
}

/// The monster may act this turn: it sees the player and its rate limiter
/// allows a move.
pub open spec fn ai_acts(w: World, i: int, player_pos: Point, now_ms: u64) -> bool {
    sees_player(w, i, player_pos) && move_allowed(w.speeds@[i]->Some_0, now_ms)
}

/// Within one king-move of the player (or on the same cell): attack range.
pub open spec fn in_melee_range(p: Position, player_pos: Point) -> bool {
    &&& -1 <= player_pos.x - p.x <= 1
    &&& -1 <= player_pos.y - p.y <= 1
}

pub struct MonsterAI {}

impl MonsterAI {
    /// One monster's turn: gate, then attack or step toward the player.
    fn ai_one(
        world: &mut World,
        map: &GameMap,
        player_pos: Point,
        player: Entity,
        now_ms: u64,
        i: usize,
    )
        requires
            old(world).wf(),
            map.wf(),
            positions_in_bounds(*old(world), *map),
            map.spec_in_bounds(player_pos.x as int, player_pos.y as int),
            i < old(world).n(),
        ensures
            final(world).wf(),
            final(world).n() == old(world).n(),
            final(world).slots@ == old(world).slots@,
            !ai_acts(*old(world), i as int, player_pos, now_ms) ==> *final(world) == *old(world),
            ai_acts(*old(world), i as int, player_pos, now_ms) ==> final(world).speeds@ == old(world).speeds@.update(
                i as int,
                Some(
                    MovementSpeed {
                        last_move_time: Some(now_ms),
                        ..old(world).speeds@[i as int]->Some_0
                    },
                ),
            ),
            (ai_acts(*old(world), i as int, player_pos, now_ms) && in_melee_range(
                old(world).positions@[i as int]->Some_0,
                player_pos,
            )) ==> final(world).melee_intents@ == old(world).melee_intents@.update(
                i as int,
                Some(WantsToMelee { target: player }),
            ) && final(world).positions@ == old(world).positions@ && final(world).viewsheds@ == old(world).viewsheds@,
            (ai_acts(*old(world), i as int, player_pos, now_ms) && !in_melee_range(
                old(world).positions@[i as int]->Some_0,
                player_pos,
            )) ==> final(world).melee_intents@ == old(world).melee_intents@ && ((final(world).positions@ == old(world).positions@ && final(world).viewsheds@ == old(world).viewsheds@) || (exists|q: Position|
                stepped_cell(*old(world), *final(world), *map, i as int, q))),
            forall|j: int|
                0 <= j < old(world).n() && j != i ==> final(world).positions@[j] == old(
                    world,
                ).positions@[j] && final(world).viewsheds@[j] == old(world).viewsheds@[j],
            final(world).renderables@ == old(world).renderables@,
            final(world).names@ == old(world).names@,
            final(world).blockers@ == old(world).blockers@,
            final(world).items@ == old(world).items@,
            final(world).backpacks@ == old(world).backpacks@,
            final(world).pickup_intents@ == old(world).pickup_intents@,
            final(world).healing@ == old(world).healing@,
            final(world).consumables@ == old(world).consumables@,
            final(world).use_intents@ == old(world).use_intents@,
            final(world).drop_intents@ == old(world).drop_intents@,
            final(world).combat_stats@ == old(world).combat_stats@,
            final(world).suffering@ == old(world).suffering@,
            final(world).ranged@ == old(world).ranged@,
            final(world).inflicts@ == old(world).inflicts@,
            final(world).players@ == old(world).players@,
            final(world).monsters@ == old(world).monsters@,
            final(world).markers@ == old(world).markers@,
            final(world).helpers@ == old(world).helpers@,
            positions_in_bounds(*final(world), *map),
    {
        let ghost w0 = *old(world);
        let slot = world.slots[i];
        if matches!(slot.state, SlotState::Free) {
            return ;
        }
        let is_monster = match world.monsters.get(i) {
            Some(_) => true,
            None => false,
        };
        let has_name = match world.names.get(i) {
            Some(_) => true,
            None => false,
        };
        if !is_monster || !has_name {
            return ;
        }
        let pos = match world.positions.get(i) {
            Some(p) => *p,
            None => {
                return ;
            },
        };
        let sees = match world.viewsheds.get(i) {
            Some(v) => crate::util::contains_point(&v.visible_tiles, player_pos),
            None => {
                return ;
            },
        };
        let mut speed = match world.speeds.get(i) {
            Some(s) => *s,
            None => {
                return ;
            },
        };
        if !sees {
            proof {
                assert(!ai_acts(w0, i as int, player_pos, now_ms));
            }
            return ;
        }
        if !can_move(&mut speed, now_ms) {
            proof {
                assert(!ai_acts(w0, i as int, player_pos, now_ms));
            }
            return ;
        }
        world.speeds.set(i, Some(speed));
        proof {
            assert(ai_acts(w0, i as int, player_pos, now_ms));
            assert forall|j: int|
                0 <= j < world.n() && world.slots@[j].state is Free implies world.no_comps_at(
                j,
            ) by {
                assert(w0.no_comps_at(j));
            }
        }
        let dx = player_pos.x as i64 - pos.x as i64;
        let dy = player_pos.y as i64 - pos.y as i64;
        if -1 <= dx && dx <= 1 && -1 <= dy && dy <= 1 {
            world.melee_intents.set(i, Some(WantsToMelee { target: player }));
            proof {
                assert forall|j: int|
                    0 <= j < world.n() && world.slots@[j].state is Free implies world.no_comps_at(
                    j,
                ) by {
                    assert(w0.no_comps_at(j));
                }
            }
            return ;
        }
        proof {
            assert(world.positions@[i as int] == Some(pos));
            assert(map.spec_in_bounds(pos.x as int, pos.y as int));
        }
        let start = Point { x: pos.x, y: pos.y };
        match find_path(map, start, player_pos) {
            Some(path) => {
                if path.len() > 1 {
                    let step = path[1];
                    world.positions.set(i, Some(Position { x: step.x, y: step.y }));
                    match world.viewsheds.entry_mut(i) {
                        Some(v) => {
                            v.dirty = true;
                        },
                        None => {},
                    }
                    proof {
                        assert(crate::pathfind::valid_path(*map, path@, start, player_pos));
                        assert(point_adjacent(path@[0], path@[1]));
                        assert(stepped_cell(w0, *world, *map, i as int, Position {
                            x: path@[1].x,
                            y: path@[1].y,
                        }));
                        assert forall|j: int|
                            0 <= j < world.n() && world.slots@[j].state is Free
                            implies world.no_comps_at(j) by {
                            assert(w0.no_comps_at(j));
                        }
                        assert forall|j: int|
                            0 <= j < world.n() && world.present_at(j) implies match world.positions@[j] {
                            Some(p) => map.spec_in_bounds(p.x as int, p.y as int),
                            None => true,
                        } by {
                            if j != i {
                                assert(world.positions@[j] == w0.positions@[j]);
                            }
                        }
                    }
                }
            },
            None => {},
        }
    }

    /// Runs intent generation for every monster: each named monster that
    /// sees the player and passes its rate gate attacks when in melee range
    /// and otherwise steps one adjacent, unblocked cell toward the player,
    /// dirtying its viewshed; everything else is untouched.
    pub fn run(world: &mut World, map: &GameMap, player_pos: Point, player: Entity, now_ms: u64)
        requires
            old(world).wf(),
            map.wf(),
            positions_in_bounds(*old(world), *map),
            map.spec_in_bounds(player_pos.x as int, player_pos.y as int),
        ensures
            final(world).wf(),
            final(world).n() == old(world).n(),
            final(world).slots@ == old(world).slots@,
            positions_in_bounds(*final(world), *map),
            forall|i: int|
                #![trigger final(world).speeds@[i]]
                0 <= i < old(world).n() ==> final(world).speeds@[i] == (if ai_acts(
                    *old(world),
                    i,
                    player_pos,
                    now_ms,
                ) {
                    Some(
                        MovementSpeed {
                            last_move_time: Some(now_ms),
                            ..old(world).speeds@[i]->Some_0
                        },
                    )
                } else {
                    old(world).speeds@[i]
                }),
            forall|i: int|
                #![trigger final(world).melee_intents@[i]]
                0 <= i < old(world).n() ==> final(world).melee_intents@[i] == (if ai_acts(
                    *old(world),
                    i,
                    player_pos,
                    now_ms,
                ) && in_melee_range(old(world).positions@[i]->Some_0, player_pos) {
                    Some(WantsToMelee { target: player })
                } else {
                    old(world).melee_intents@[i]
                }),
            forall|i: int|
                #![trigger final(world).positions@[i]]
                #![trigger final(world).viewsheds@[i]]
                0 <= i < old(world).n() ==> ((final(world).positions@[i] == old(world).positions@[i] && final(world).viewsheds@[i] == old(world).viewsheds@[i]) || (
                ai_acts(*old(world), i, player_pos, now_ms) && !in_melee_range(
                    old(world).positions@[i]->Some_0,
                    player_pos,
                ) && exists|q: Position| stepped_cell(*old(world), *final(world), *map, i, q))),
            final(world).renderables@ == old(world).renderables@,
            final(world).names@ == old(world).names@,
            final(world).blockers@ == old(world).blockers@,
            final(world).items@ == old(world).items@,
            final(world).backpacks@ == old(world).backpacks@,
            final(world).pickup_intents@ == old(world).pickup_intents@,
            final(world).healing@ == old(world).healing@,
            final(world).consumables@ == old(world).consumables@,
            final(world).use_intents@ == old(world).use_intents@,
            final(world).drop_intents@ == old(world).drop_intents@,
            final(world).combat_stats@ == old(world).combat_stats@,
            final(world).suffering@ == old(world).suffering@,
            final(world).ranged@ == old(world).ranged@,
            final(world).inflicts@ == old(world).inflicts@,
            final(world).players@ == old(world).players@,
            final(world).monsters@ == old(world).monsters@,
            final(world).markers@ == old(world).markers@,
            final(world).helpers@ == old(world).helpers@,
            ai_rel(*old(world), *final(world), *map, player_pos, player, now_ms),
    {
        let ghost w0 = *old(world);
        let n = world.slots.len();
        let mut i: usize = 0;
        while i < n
            invariant
                w0.wf(),
                world.wf(),
                map.wf(),
                positions_in_bounds(w0, *map),
                positions_in_bounds(*world, *map),
                map.spec_in_bounds(player_pos.x as int, player_pos.y as int),
                n == w0.n(),
                world.n() == n,
                i <= n,
                world.slots@ == w0.slots@,
                forall|j: int|
                    #![trigger world.speeds@[j]]
                    0 <= j < i ==> world.speeds@[j] == (if ai_acts(w0, j, player_pos, now_ms) {
                        Some(
                            MovementSpeed {
                                last_move_time: Some(now_ms),
                                ..w0.speeds@[j]->Some_0
                            },
                        )
                    } else {
                        w0.speeds@[j]
                    }),
                forall|j: int| #![trigger world.speeds@[j]] i <= j < n ==> world.speeds@[j] == w0.speeds@[j],
                forall|j: int|
                    #![trigger world.melee_intents@[j]]
                    0 <= j < i ==> world.melee_intents@[j] == (if ai_acts(w0, j, player_pos, now_ms)
                        && in_melee_range(w0.positions@[j]->Some_0, player_pos) {
                        Some(WantsToMelee { target: player })
                    } else {
                        w0.melee_intents@[j]
                    }),
                forall|j: int|
                    #![trigger world.melee_intents@[j]]
                    i <= j < n ==> world.melee_intents@[j] == w0.melee_intents@[j],
                forall|j: int|
                    #![trigger world.positions@[j]]
                    #![trigger world.viewsheds@[j]]
                    0 <= j < i ==> ((world.positions@[j] == w0.positions@[j] && world.viewsheds@[j]
                        == w0.viewsheds@[j]) || (ai_acts(w0, j, player_pos, now_ms)
                        && !in_melee_range(w0.positions@[j]->Some_0, player_pos) && exists|
                        q: Position,
                    | stepped_cell(w0, *world, *map, j, q))),
                forall|j: int|
                    #![trigger world.positions@[j]]
                    #![trigger world.viewsheds@[j]]
                    i <= j < n ==> world.positions@[j] == w0.positions@[j] && world.viewsheds@[j]
                        == w0.viewsheds@[j],
                world.renderables@ == w0.renderables@,
                world.names@ == w0.names@,
                world.blockers@ == w0.blockers@,
                world.items@ == w0.items@,
                world.backpacks@ == w0.backpacks@,
                world.pickup_intents@ == w0.pickup_intents@,
                world.healing@ == w0.healing@,
                world.consumables@ == w0.consumables@,
                world.use_intents@ == w0.use_intents@,
                world.drop_intents@ == w0.drop_intents@,
                world.combat_stats@ == w0.combat_stats@,
                world.suffering@ == w0.suffering@,
                world.ranged@ == w0.ranged@,
                world.inflicts@ == w0.inflicts@,
                world.players@ == w0.players@,
                world.monsters@ == w0.monsters@,
                world.markers@ == w0.markers@,
                world.helpers@ == w0.helpers@,
            decreases n - i,
        {
            let ghost pre = *world;
            proof {
                assert(ai_acts(pre, i as int, player_pos, now_ms) == ai_acts(
                    w0,
                    i as int,
                    player_pos,
                    now_ms,
                ));
            }
            Self::ai_one(world, map, player_pos, player, now_ms, i);
            proof {
                let ii = i as int;
                if ai_acts(w0, ii, player_pos, now_ms) && !in_melee_range(
                    w0.positions@[ii]->Some_0,
                    player_pos,
                ) {
                    if exists|q: Position| stepped_cell(pre, *world, *map, ii, q) {
                        let q = choose|q: Position| stepped_cell(pre, *world, *map, ii, q);
                        assert(stepped_cell(w0, *world, *map, ii, q));
                    }
                }
                assert forall|j: int|
                    0 <= j < ii implies ((world.positions@[j] == w0.positions@[j]
                    && world.viewsheds@[j] == w0.viewsheds@[j]) || (ai_acts(
                    w0,
                    j,
                    player_pos,
                    now_ms,
                ) && !in_melee_range(w0.positions@[j]->Some_0, player_pos) && exists|q: Position|
                    stepped_cell(w0, *world, *map, j, q))) by {
                    assert(world.positions@[j] == pre.positions@[j]);
                    assert(world.viewsheds@[j] == pre.viewsheds@[j]);
                    if !(pre.positions@[j] == w0.positions@[j] && pre.viewsheds@[j]
                        == w0.viewsheds@[j]) {
                        let q = choose|q: Position| stepped_cell(w0, pre, *map, j, q);
                        assert(stepped_cell(w0, *world, *map, j, q));
                    }
                }
            }
            i = i + 1;
        }
    }
}

/// Monster `i` stepped onto `q`: an adjacent, on-grid, unblocked cell, with
/// its viewshed dirtied. Only slot `i` is spoken of; the pass leaves every
/// other slot's position and viewshed alone.
pub open spec fn stepped_cell(w0: World, w1: World, map: GameMap, i: int, q: Position) -> bool {
    &&& point_adjacent(
        Point { x: w0.positions@[i]->Some_0.x, y: w0.positions@[i]->Some_0.y },
        Point { x: q.x, y: q.y },
    )
    &&& map.spec_in_bounds(q.x as int, q.y as int)
    &&& !map.blocked@[map.spec_idx(q.x as int, q.y as int)]
    &&& w1.positions@[i] == Some(q)
    &&& w1.viewsheds@[i] == Some(Viewshed { dirty: true, ..w0.viewsheds@[i]->Some_0 })
}

/// Everything monster intent generation guarantees, as one relation
/// between the before and after states (the pass's contract, verbatim).
pub open spec fn ai_rel(w0: World, w1: World, m: GameMap, player_pos: Point, player: Entity, now_ms: u64) -> bool {
    &&& (w1.wf())
    &&& (w1.n() == w0.n())
    &&& (w1.slots@ == w0.slots@)
    &&& (positions_in_bounds(w1, m))
    &&& (forall|i: int|
                #![trigger w1.speeds@[i]]
                0 <= i < w0.n() ==> w1.speeds@[i] == (if ai_acts(
                    w0,
                    i,
                    player_pos,
                    now_ms,
                ) {
                    Some(
                        MovementSpeed {
                            last_move_time: Some(now_ms),
                            ..w0.speeds@[i]->Some_0
                        },
                    )
                } else {
                    w0.speeds@[i]
                }))
    &&& (forall|i: int|
                #![trigger w1.melee_intents@[i]]
                0 <= i < w0.n() ==> w1.melee_intents@[i] == (if ai_acts(
                    w0,
                    i,
                    player_pos,
                    now_ms,
                ) && in_melee_range(w0.positions@[i]->Some_0, player_pos) {
                    Some(WantsToMelee { target: player })
                } else {
                    w0.melee_intents@[i]
                }))
    &&& (forall|i: int|
                #![trigger w1.positions@[i]]
                #![trigger w1.viewsheds@[i]]
                0 <= i < w0.n() ==> ((w1.positions@[i] == w0.positions@[i] && w1.viewsheds@[i] == w0.viewsheds@[i]) || (
                ai_acts(w0, i, player_pos, now_ms) && !in_melee_range(
                    w0.positions@[i]->Some_0,
                    player_pos,
                ) && exists|q: Position| stepped_cell(w0, w1, m, i, q))))
    &&& (w1.renderables@ == w0.renderables@)
    &&& (w1.names@ == w0.names@)
    &&& (w1.blockers@ == w0.blockers@)
    &&& (w1.items@ == w0.items@)
    &&& (w1.backpacks@ == w0.backpacks@)
    &&& (w1.pickup_intents@ == w0.pickup_intents@)
    &&& (w1.healing@ == w0.healing@)
    &&& (w1.consumables@ == w0.consumables@)
    &&& (w1.use_intents@ == w0.use_intents@)
    &&& (w1.drop_intents@ == w0.drop_intents@)
    &&& (w1.combat_stats@ == w0.combat_stats@)
    &&& (w1.suffering@ == w0.suffering@)
    &&& (w1.ranged@ == w0.ranged@)
    &&& (w1.inflicts@ == w0.inflicts@)
    &&& (w1.players@ == w0.players@)
    &&& (w1.monsters@ == w0.monsters@)
    &&& (w1.markers@ == w0.markers@)
    &&& (w1.helpers@ == w0.helpers@)
}

} // verus!
