//! Simulation core of a turn-based dungeon crawl: an entity/component store,
//! a spatial map index, intent-resolution systems for combat and inventory,
//! a turn scheduler, and a save/load gateway that keeps cross-entity
//! references stable across a process boundary.

use vstd::prelude::*;

pub mod components;
pub mod damage_system;
pub mod entity;
pub mod gamelog;
pub mod gui;
pub mod inventory_system;
pub mod keys_util;
pub mod map;
pub mod map_indexing_system;
pub mod melee_combat_system;
pub mod monster_ai_system;
pub mod movement_util;
pub mod pathfind;
pub mod player;
pub mod save_load_system;
pub mod storage;
pub mod util;
pub mod world;

use crate::components::Point;
use crate::components::Position;
use crate::components::Viewshed;
use crate::damage_system::DamageSystem;
use crate::damage_system::delete_the_dead;
use crate::entity::Entity;
use crate::entity::Slot;
use crate::entity::SlotState;
use crate::gamelog::GameLog;
use crate::inventory_system::ItemCollectionSystem;
use crate::inventory_system::ItemDropSystem;
use crate::inventory_system::ItemUseSystem;
use crate::keys_util::KeyPress;
use crate::map::GameMap;
use crate::map_indexing_system::MapIndexingSystem;
use crate::map_indexing_system::positions_in_bounds;
use crate::melee_combat_system::MeleeCombatSystem;
use crate::monster_ai_system::MonsterAI;
use crate::world::World;

verus! {

/// What the main menu is currently pointing at.
#[derive(Clone, Copy, PartialEq, Eq, Structural, Debug)]
pub enum MainMenuSelection {
    NewGame,
    LoadGame,
    Quit,
}

/// What one frame of menu interaction produced.
#[derive(Clone, Copy, PartialEq, Eq, Structural, Debug)]
pub enum MainMenuResult {
    NoSelection { selected: MainMenuSelection },
    Selected { selected: MainMenuSelection },
}

/// Drives the scheduler: only `Running` advances turns; `SaveGame` runs the
/// persistence gateway once and falls back to the menu.
#[derive(Clone, Copy, PartialEq, Eq, Structural, Debug)]
pub enum RunState {
    Paused,
    Running,
    SaveGame,
    MainMenu { menu_selection: MainMenuSelection },
}

/// Front-end side state: inventory overlay flags and per-key repeat gates.
#[derive(Clone, Copy, PartialEq, Eq, Structural, Debug)]
pub struct Client {
    pub show_inventory: bool,
    pub drop_inventory: bool,
    pub key_e: KeyPress,
    pub key_i: KeyPress,
    pub key_escape: KeyPress,
    pub key_g: KeyPress,
}

impl Default for Client {
    /// The standard key gates: 100 ms between presses, 500 ms repeat delay.
    fn default() -> (c: Client)
        ensures
            c == Client::initial(),
    {
        Client {
            show_inventory: false,
            drop_inventory: false,
            key_e: KeyPress::new(100, 500),
            key_i: KeyPress::new(100, 500),
            key_escape: KeyPress::new(100, 500),
            key_g: KeyPress::new(100, 500),
        }
    }
}

impl Client {
    /// The value `Client::default()` returns.
    pub open spec fn initial() -> Client {
        Client {
            show_inventory: false,
            drop_inventory: false,
            key_e: KeyPress {
                min_delay_ms: 100,
                last_press_time: None,
                state: crate::keys_util::KeyState::RELEASED,
                repeat_delay_ms: 500,
            },
            key_i: KeyPress {
                min_delay_ms: 100,
                last_press_time: None,
                state: crate::keys_util::KeyState::RELEASED,
                repeat_delay_ms: 500,
            },
            key_escape: KeyPress {
                min_delay_ms: 100,
                last_press_time: None,
                state: crate::keys_util::KeyState::RELEASED,
                repeat_delay_ms: 500,
            },
            key_g: KeyPress {
                min_delay_ms: 100,
                last_press_time: None,
                state: crate::keys_util::KeyState::RELEASED,
                repeat_delay_ms: 500,
            },
        }
    }
}

/// A freshly computed field of view for one entity, handed in by the
/// visibility collaborator.
pub struct VisionUpdate {
    pub entity: Entity,
    pub visible: Vec<Point>,
}

/// The whole simulation state: the store, the map singleton, the log, the
/// scheduler state, the player handle and position resources, and the
/// front-end client data.
pub struct State {
    pub ecs: World,
    pub map: GameMap,
    pub log: GameLog,
    pub run_state: RunState,
    pub player_entity: Entity,
    pub player_pos: Point,
    pub client: Client,
}

/// Every intent set is empty: what each turn guarantees at its end.
pub open spec fn intents_clear(w: World) -> bool {
    forall|i: int|
        #![trigger w.melee_intents@[i]]
        #![trigger w.pickup_intents@[i]]
        #![trigger w.use_intents@[i]]
        #![trigger w.drop_intents@[i]]
        0 <= i < w.n() ==> w.melee_intents@[i] is None && w.pickup_intents@[i] is None
            && w.use_intents@[i] is None && w.drop_intents@[i] is None
}

/// Item slot `i` carries exactly one of a map position and a backpack edge.
pub open spec fn item_exclusive_at(w: World, i: int) -> bool {
    (w.positions@[i] is Some && w.backpacks@[i] is None) || (w.positions@[i] is None
        && w.backpacks@[i] is Some)
}

/// Backpack/position mutual exclusion: every present item is either on the
/// map or in a backpack, never both, never neither.
pub open spec fn items_exclusive(w: World) -> bool {
    forall|i: int|
        #![trigger w.items@[i]]
        0 <= i < w.n() && w.present_at(i) && w.items@[i] is Some ==> item_exclusive_at(w, i)
}

/// Update `k` lands: it names a live slot under the right generation that
/// carries a viewshed.
pub open spec fn vision_applies(w: World, fov: Seq<VisionUpdate>, k: int) -> bool {
    &&& 0 <= k < fov.len()
    &&& w.present_at(fov[k].entity.index as int)
    &&& w.slots@[fov[k].entity.index as int].gen == fov[k].entity.gen
    &&& w.viewsheds@[fov[k].entity.index as int] is Some
}

/// Update `k` lands on a player-tagged entity: exactly then the map's
/// visible bitmap is rebuilt from it.
pub open spec fn player_vision(w: World, fov: Seq<VisionUpdate>, k: int) -> bool {
    vision_applies(w, fov, k) && w.players@[fov[k].entity.index as int] is Some
}

/// The vision updates name pairwise distinct slots, as one recomputation
/// pass produces them.
pub open spec fn vision_entities_distinct(w: World, fov: Seq<VisionUpdate>) -> bool {
    forall|a: int, b: int|
        0 <= a < fov.len() && 0 <= b < fov.len() && a != b ==> fov[a].entity.index
            != fov[b].entity.index
}

impl State {
    /// The cross-structure well-formedness the scheduler maintains: store and
    /// map well formed, every position on the grid, the player resource on
    /// the grid, and at most one entity tagged as the player.
    pub open spec fn wf(self) -> bool {
        &&& self.ecs.wf()
        &&& self.map.wf()
        &&& positions_in_bounds(self.ecs, self.map)
        &&& self.map.spec_in_bounds(self.player_pos.x as int, self.player_pos.y as int)
        &&& forall|j: int, k: int|
            0 <= j < self.ecs.n() && 0 <= k < self.ecs.n() && self.ecs.players@[j] is Some
                && self.ecs.players@[k] is Some ==> j == k
    }

    /// Runs the fixed per-turn system pipeline in order: visibility intake,
    /// monster intent generation, index rebuild, melee resolution, damage
    /// resolution, the dead sweep, the three inventory passes, and
    /// maintenance. Afterwards every intent set is empty (each intent lives
    /// exactly one turn), and backpack/position exclusion of items is
    /// preserved across the turn.
    pub fn run_systems(&mut self, fov: Vec<VisionUpdate>, now_ms: u64)
        requires
            old(self).wf(),
            vision_entities_distinct(old(self).ecs, fov@),
        ensures
            final(self).wf(),
            final(self).run_state == old(self).run_state,
            final(self).player_entity == old(self).player_entity,
            final(self).player_pos == old(self).player_pos,
            final(self).client == old(self).client,
            intents_clear(final(self).ecs),
            items_exclusive(old(self).ecs) ==> items_exclusive(final(self).ecs),
            // the whole pipeline's effect: intermediate states linked by each
            // pass's own contract, in the fixed order
            turn_rel(
                *old(self),
                *final(self),
                fov@,
                now_ms,
                old(self).log@,
                final(self).log@,
                old(self).log.bound(),
            ),
    {
        let player = self.player_entity;
        let ppos = self.player_pos;
        let ghost e0 = self.ecs;
        apply_visibility(&mut self.ecs, &mut self.map, &fov, player);
        let ghost e1 = self.ecs;
        let ghost m1 = self.map;
        MonsterAI::run(&mut self.ecs, &self.map, ppos, player, now_ms);
        let ghost e2 = self.ecs;
        proof {
            if items_exclusive(e0) {
                assert forall|i: int|
                    0 <= i < e2.n() && e2.present_at(i) && e2.items@[i] is Some
                    implies item_exclusive_at(e2, i) by {
                    assert(e1.items@[i] == e0.items@[i]);
                    assert(item_exclusive_at(e0, i));
                    assert(e2.backpacks@[i] == e0.backpacks@[i]);
                    if !(e2.positions@[i] == e1.positions@[i]) {
                        assert(e2.positions@[i] is Some);
                    }
                }
                assert(items_exclusive(e2));
            }
        }
        MapIndexingSystem::run(&mut self.map, &self.ecs);
        MeleeCombatSystem::run(&mut self.ecs, &mut self.log);
        let ghost e3 = self.ecs;
        let ghost lm = self.log@;
        DamageSystem::run(&mut self.ecs);
        let ghost e4 = self.ecs;
        delete_the_dead(&mut self.ecs, &mut self.log);
        let ghost e5 = self.ecs;
        let ghost ls = self.log@;
        proof {
            if items_exclusive(e2) {
                assert forall|i: int|
                    0 <= i < e5.n() && e5.present_at(i) && e5.items@[i] is Some
                    implies item_exclusive_at(e5, i) by {
                    assert(World::comps_eq_at(e4, e5, i));
                    assert(item_exclusive_at(e2, i));
                }
                assert(items_exclusive(e5));
            }
            assert(positions_in_bounds(e5, self.map)) by {
                assert forall|i: int|
                    #![trigger e5.positions@[i]]
                    0 <= i < e5.n() && e5.present_at(i) implies match e5.positions@[i] {
                    Some(p) => self.map.spec_in_bounds(p.x as int, p.y as int),
                    None => true,
                } by {
                    assert(World::comps_eq_at(e4, e5, i));
                }
            }
        }
        ItemCollectionSystem::run(&mut self.ecs, &mut self.log, player);
        let ghost e6 = self.ecs;
        let ghost lp = self.log@;
        proof {
            if items_exclusive(e5) {
                assert forall|i: int|
                    0 <= i < e6.n() && e6.present_at(i) && e6.items@[i] is Some
                    implies item_exclusive_at(e6, i) by {
                    assert(item_exclusive_at(e5, i));
                }
                assert(items_exclusive(e6));
            }
            assert(positions_in_bounds(e6, self.map)) by {
                assert forall|i: int|
                    #![trigger e6.positions@[i]]
                    0 <= i < e6.n() && e6.present_at(i) implies match e6.positions@[i] {
                    Some(p) => self.map.spec_in_bounds(p.x as int, p.y as int),
                    None => true,
                } by {
                    if e6.positions@[i] is Some {
                        assert(e6.positions@[i] == e5.positions@[i]);
                    }
                }
            }
        }
        ItemUseSystem::run(&mut self.ecs, &mut self.log, player);
        let ghost e7 = self.ecs;
        let ghost lu = self.log@;
        proof {
            assert(positions_in_bounds(e7, self.map)) by {
                assert forall|i: int|
                    #![trigger e7.positions@[i]]
                    0 <= i < e7.n() && e7.present_at(i) implies match e7.positions@[i] {
                    Some(p) => self.map.spec_in_bounds(p.x as int, p.y as int),
                    None => true,
                } by {
                    assert(e7.positions@[i] == e6.positions@[i]);
                    assert(e7.present_at(i) ==> e6.present_at(i));
                }
            }
            if items_exclusive(e6) {
                assert forall|i: int|
                    0 <= i < e7.n() && e7.present_at(i) && e7.items@[i] is Some
                    implies item_exclusive_at(e7, i) by {
                    assert(e7.present_at(i) ==> e6.present_at(i));
                    assert(item_exclusive_at(e6, i));
                }
                assert(items_exclusive(e7));
            }
        }
        ItemDropSystem::run(&mut self.ecs, &mut self.log, player);
        let ghost e8 = self.ecs;
        proof {
            if items_exclusive(e7) {
                assert forall|i: int|
                    0 <= i < e8.n() && e8.present_at(i) && e8.items@[i] is Some
                    implies item_exclusive_at(e8, i) by {
                    assert(item_exclusive_at(e7, i));
                }
                assert(items_exclusive(e8));
            }
            assert(positions_in_bounds(e8, self.map)) by {
                assert forall|i: int|
                    #![trigger e8.positions@[i]]
                    0 <= i < e8.n() && e8.present_at(i) implies match e8.positions@[i] {
                    Some(p) => self.map.spec_in_bounds(p.x as int, p.y as int),
                    None => true,
                } by {
                    if e8.positions@[i] is Some {
                        if exists|k: int|
                            0 <= k < e7.n() && e7.positions@[k] is Some && e8.positions@[i]
                                == e7.positions@[k] {
                            let k = choose|k: int|
                                0 <= k < e7.n() && e7.positions@[k] is Some && e8.positions@[i]
                                    == e7.positions@[k];
                            if e7.present_at(k) {
                            } else {
                                assert(e7.no_comps_at(k));
                            }
                        }
                    }
                }
            }
        }
        self.ecs.maintain();
        proof {
            let e9 = self.ecs;
            assert forall|i: int|
                0 <= i < e9.n() implies e9.melee_intents@[i] is None && e9.pickup_intents@[i]
                is None && e9.use_intents@[i] is None && e9.drop_intents@[i] is None by {
                if e8.slots@[i].state is Dying {
                    assert(e9.no_comps_at(i));
                } else {
                    assert(World::comps_eq_at(e8, e9, i));
                    assert(e3.melee_intents@[i] is None);
                    assert(e4.melee_intents@[i] == e3.melee_intents@[i]);
                    assert(World::comps_eq_at(e4, e5, i));
                    assert(e6.melee_intents@[i] == e5.melee_intents@[i]);
                    assert(e7.melee_intents@[i] == e6.melee_intents@[i]);
                    assert(e8.melee_intents@[i] == e7.melee_intents@[i]);
                    assert(e6.pickup_intents@[i] is None);
                    assert(e7.pickup_intents@[i] == e6.pickup_intents@[i]);
                    assert(e8.pickup_intents@[i] == e7.pickup_intents@[i]);
                    assert(e7.use_intents@[i] is None);
                    assert(e8.use_intents@[i] == e7.use_intents@[i]);
                    assert(e8.drop_intents@[i] is None);
                }
            }
            assert(intents_clear(e9));
            if items_exclusive(e8) {
                assert forall|i: int|
                    0 <= i < e9.n() && e9.present_at(i) && e9.items@[i] is Some
                    implies item_exclusive_at(e9, i) by {
                    if e8.slots@[i].state is Dying {
                        assert(e9.slots@[i] == (Slot {
                            gen: e8.slots@[i].gen,
                            state: SlotState::Free,
                        }));
                    }
                    assert(World::comps_eq_at(e8, e9, i));
                    assert(e8.present_at(i));
                    assert(item_exclusive_at(e8, i));
                }
                assert(items_exclusive(e9));
            }
            assert(positions_in_bounds(self.ecs, self.map)) by {
                assert forall|i: int|
                    #![trigger e9.positions@[i]]
                    0 <= i < e9.n() && e9.present_at(i) implies match e9.positions@[i] {
                    Some(p) => self.map.spec_in_bounds(p.x as int, p.y as int),
                    None => true,
                } by {
                    if e8.slots@[i].state is Dying {
                        assert(e9.slots@[i] == (Slot {
                            gen: e8.slots@[i].gen,
                            state: SlotState::Free,
                        }));
                    }
                    assert(World::comps_eq_at(e8, e9, i));
                    assert(e8.present_at(i));
                }
            }
            let steps = TurnSteps {
                after_vision: e1,
                after_ai: e2,
                after_melee: e3,
                after_damage: e4,
                after_sweep: e5,
                after_pickup: e6,
                after_use: e7,
                after_drop: e8,
                mid_map: m1,
                log_melee: lm,
                log_sweep: ls,
                log_pickup: lp,
                log_use: lu,
            };
            assert(vis_rel(
                old(self).ecs,
                old(self).map,
                steps.after_vision,
                steps.mid_map,
                fov@,
                old(self).player_entity,
            ));
            assert(crate::monster_ai_system::ai_rel(
                steps.after_vision,
                steps.after_ai,
                steps.mid_map,
                old(self).player_pos,
                old(self).player_entity,
                now_ms,
            ));
            assert(crate::map_indexing_system::index_rel(
                steps.mid_map,
                self.map,
                steps.after_ai,
            ));
            assert(crate::melee_combat_system::melee_rel(
                steps.after_ai,
                steps.after_melee,
                old(self).log@,
                old(self).log.bound(),
                steps.log_melee,
            ));
            assert(crate::damage_system::damage_rel(steps.after_melee, steps.after_damage));
            assert(crate::damage_system::sweep_rel(
                steps.after_damage,
                steps.after_sweep,
                steps.log_melee,
                old(self).log.bound(),
                steps.log_sweep,
            ));
            assert(crate::inventory_system::pickup_rel(
                steps.after_sweep,
                steps.after_pickup,
                steps.log_sweep,
                old(self).log.bound(),
                steps.log_pickup,
                old(self).player_entity,
            ));
            assert(crate::inventory_system::use_rel(
                steps.after_pickup,
                steps.after_use,
                steps.log_pickup,
                old(self).log.bound(),
                steps.log_use,
                old(self).player_entity,
            ));
            assert(crate::inventory_system::drop_rel(
                steps.after_use,
                steps.after_drop,
                steps.log_use,
                old(self).log.bound(),
                self.log@,
                old(self).player_entity,
            ));
            assert(crate::world::maintain_rel(steps.after_drop, self.ecs));
            assert(turn_rel(
                *old(self),
                *self,
                fov@,
                now_ms,
                old(self).log@,
                self.log@,
                old(self).log.bound(),
            ));
            assert forall|j: int, k: int|
                0 <= j < self.ecs.n() && 0 <= k < self.ecs.n() && self.ecs.players@[j] is Some
                    && self.ecs.players@[k] is Some implies j == k by {
                if e8.slots@[j].state is Dying {
                    assert(self.ecs.no_comps_at(j));
                } else {
                    assert(World::comps_eq_at(e8, self.ecs, j));
                }
                if e8.slots@[k].state is Dying {
                    assert(self.ecs.no_comps_at(k));
                } else {
                    assert(World::comps_eq_at(e8, self.ecs, k));
                }
                assert(e8.players@[j] is Some && e8.players@[k] is Some);
                assert(World::comps_eq_at(e4, e5, j));
                assert(World::comps_eq_at(e4, e5, k));
                assert(e0.players@[j] is Some && e0.players@[k] is Some);
            }
        }
    }
}

/// Applies freshly computed fields of view: each updated entity's viewshed
/// takes the supplied cells (those on the grid), its dirty flag clears, and
/// a player update refreshes the map's visible and revealed bitmaps.
pub fn apply_visibility(
    world: &mut World,
    map: &mut GameMap,
    fov: &Vec<VisionUpdate>,
    player: Entity,
)
    requires
        old(world).wf(),
        old(map).wf(),
        positions_in_bounds(*old(world), *old(map)),
        vision_entities_distinct(*old(world), fov@),
    ensures
        final(world).wf(),
        final(world).n() == old(world).n(),
        final(world).slots@ == old(world).slots@,
        final(map).wf(),
        final(map).width == old(map).width,
        final(map).height == old(map).height,
        final(map).tiles@ == old(map).tiles@,
        final(map).blocked@ == old(map).blocked@,
        final(map).tile_content@.len() == old(map).tile_content@.len(),
        forall|c: int|
            0 <= c < old(map).size() ==> final(map).tile_content@[c]@ == old(map).tile_content@[c]@,
        positions_in_bounds(*final(world), *final(map)),
        forall|c: int|
            0 <= c < old(map).size() && old(map).revealed_tiles@[c] ==> final(map).revealed_tiles@[c],
        forall|k: int|
            #![trigger fov@[k]]
            0 <= k < fov@.len() && old(world).present_at(fov@[k].entity.index as int) && old(world).slots@[fov@[k].entity.index as int].gen == fov@[k].entity.gen && old(world).viewsheds@[fov@[k].entity.index as int] is Some ==> (final(world).viewsheds@[fov@[k].entity.index as int] matches Some(v) && v.dirty == false
                && v.visible_tiles@ == fov@[k].visible@.filter(
                |p: Point| old(map).spec_in_bounds(p.x as int, p.y as int),
            )),
        forall|i: int|
            #![trigger final(world).viewsheds@[i]]
            0 <= i < old(world).n() && !(exists|k: int|
                0 <= k < fov@.len() && fov@[k].entity.index == i) ==> final(world).viewsheds@[i]
                == old(world).viewsheds@[i],
        // the map's visibility bitmaps move only on a player update, and a
        // sole player update rebuilds the visible bitmap from its cells
        (forall|k: int| 0 <= k < fov@.len() ==> !player_vision(*old(world), fov@, k)) ==> final(map).visible_tiles@ == old(map).visible_tiles@ && final(map).revealed_tiles@ == old(map).revealed_tiles@,
        forall|k: int|
            (player_vision(*old(world), fov@, k) && (forall|k2: int|
                0 <= k2 < fov@.len() && k2 != k ==> !player_vision(*old(world), fov@, k2))) ==> {
                let vt = final(world).viewsheds@[fov@[k].entity.index as int]->Some_0.visible_tiles@;
                forall|c: int|
                    #![trigger final(map).visible_tiles@[c]]
                    0 <= c < old(map).size() ==> (final(map).visible_tiles@[c] == exists|t: int|
                        0 <= t < vt.len() && old(map).spec_idx(vt[t].x as int, vt[t].y as int) == c)
            },
        final(world).positions@ == old(world).positions@,
        final(world).renderables@ == old(world).renderables@,
        final(world).names@ == old(world).names@,
        final(world).blockers@ == old(world).blockers@,
        final(world).items@ == old(world).items@,
        final(world).backpacks@ == old(world).backpacks@,
        final(world).pickup_intents@ == old(world).pickup_intents@,
        final(world).healing@ == old(world).healing@,
        final(world).consumables@ == old(world).consumables@,
        final(world).use_intents@ == old(world).use_intents@,
        final(world).drop_intents@ == old(world).drop_intents@,
        final(world).speeds@ == old(world).speeds@,
        final(world).combat_stats@ == old(world).combat_stats@,
        final(world).suffering@ == old(world).suffering@,
        final(world).melee_intents@ == old(world).melee_intents@,
        final(world).ranged@ == old(world).ranged@,
        final(world).inflicts@ == old(world).inflicts@,
        final(world).players@ == old(world).players@,
        final(world).monsters@ == old(world).monsters@,
        final(world).markers@ == old(world).markers@,
        final(world).helpers@ == old(world).helpers@,
        vis_rel(*old(world), *old(map), *final(world), *final(map), fov@, player),
{
    let ghost w0 = *old(world);
    let ghost m0 = *old(map);
    let n_updates = fov.len();
    let mut k: usize = 0;
    while k < n_updates
        invariant
            w0.wf(),
            world.wf(),
            m0.wf(),
            map.wf(),
            positions_in_bounds(w0, m0),
            vision_entities_distinct(w0, fov@),
            n_updates == fov@.len(),
            k <= n_updates,
            world.n() == w0.n(),
            world.slots@ == w0.slots@,
            map.width == m0.width,
            map.height == m0.height,
            map.tiles@ == m0.tiles@,
            map.blocked@ == m0.blocked@,
            map.tile_content@.len() == m0.tile_content@.len(),
            forall|c: int| 0 <= c < m0.size() ==> map.tile_content@[c]@ == m0.tile_content@[c]@,
            forall|c: int| 0 <= c < m0.size() && m0.revealed_tiles@[c] ==> map.revealed_tiles@[c],
            forall|t: int|
                #![trigger fov@[t]]
                0 <= t < k && w0.present_at(fov@[t].entity.index as int)
                    && w0.slots@[fov@[t].entity.index as int].gen == fov@[t].entity.gen
                    && w0.viewsheds@[fov@[t].entity.index as int] is Some ==> (
                world.viewsheds@[fov@[t].entity.index as int] matches Some(v) && v.dirty == false
                    && v.visible_tiles@ == fov@[t].visible@.filter(
                    |p: Point| m0.spec_in_bounds(p.x as int, p.y as int),
                )),
            forall|i: int|
                #![trigger world.viewsheds@[i]]
                0 <= i < w0.n() && !(exists|t: int| 0 <= t < k && fov@[t].entity.index == i)
                    ==> world.viewsheds@[i] == w0.viewsheds@[i],
            (forall|t: int| 0 <= t < k ==> !player_vision(w0, fov@, t)) ==> map.visible_tiles@
                == m0.visible_tiles@ && map.revealed_tiles@ == m0.revealed_tiles@,
            forall|t: int|
                (0 <= t < k && player_vision(w0, fov@, t) && (forall|t2: int|
                    0 <= t2 < fov@.len() && t2 != t ==> !player_vision(w0, fov@, t2))) ==> {
                    let vt = world.viewsheds@[fov@[t].entity.index as int]->Some_0.visible_tiles@;
                    forall|c: int|
                        #![trigger map.visible_tiles@[c]]
                        0 <= c < m0.size() ==> (map.visible_tiles@[c] == exists|t3: int|
                            0 <= t3 < vt.len() && m0.spec_idx(vt[t3].x as int, vt[t3].y as int)
                                == c)
                },
            world.positions@ == w0.positions@,
            world.renderables@ == w0.renderables@,
            world.names@ == w0.names@,
            world.blockers@ == w0.blockers@,
            world.items@ == w0.items@,
            world.backpacks@ == w0.backpacks@,
            world.pickup_intents@ == w0.pickup_intents@,
            world.healing@ == w0.healing@,
            world.consumables@ == w0.consumables@,
            world.use_intents@ == w0.use_intents@,
            world.drop_intents@ == w0.drop_intents@,
            world.speeds@ == w0.speeds@,
            world.combat_stats@ == w0.combat_stats@,
            world.suffering@ == w0.suffering@,
            world.melee_intents@ == w0.melee_intents@,
            world.ranged@ == w0.ranged@,
            world.inflicts@ == w0.inflicts@,
            world.players@ == w0.players@,
            world.monsters@ == w0.monsters@,
            world.markers@ == w0.markers@,
            world.helpers@ == w0.helpers@,
        decreases n_updates - k,
    {
        let ghost pre = *world;
        let e = fov[k].entity;
        if world.is_valid(e) {
            let has_viewshed = match world.viewsheds.get(e.index) {
                Some(_) => true,
                None => false,
            };
            if has_viewshed {
                let mut filtered: Vec<Point> = Vec::new();
                let tiles = &fov[k].visible;
                let tn = tiles.len();
                let mut t: usize = 0;
                proof {
                    reveal(Seq::filter);
                    assert(tiles@.subrange(0, 0) =~= Seq::<Point>::empty());
                }
                while t < tn
                    invariant
                        map.wf(),
                        m0.wf(),
                        map.width == m0.width,
                        map.height == m0.height,
                        tn == tiles@.len(),
                        t <= tn,
                        filtered@ == tiles@.subrange(0, t as int).filter(
                            |p: Point| m0.spec_in_bounds(p.x as int, p.y as int),
                        ),
                    decreases tn - t,
                {
                    let p = tiles[t];
                    proof {
                        reveal(Seq::filter);
                        assert(tiles@.subrange(0, t + 1).drop_last() =~= tiles@.subrange(
                            0,
                            t as int,
                        ));
                        assert(tiles@.subrange(0, t + 1).last() == tiles@[t as int]);
                    }
                    if map.in_bounds(p.x, p.y) {
                        filtered.push(p);
                    }
                    t = t + 1;
                }
                proof {
                    assert(tiles@.subrange(0, tn as int) =~= tiles@);
                }
                let range = match world.viewsheds.get(e.index) {
                    Some(v) => v.range,
                    None => 0,
                };
                let is_player_upd = match world.players.get(e.index) {
                    Some(_) => true,
                    None => false,
                };
                if is_player_upd {
                    refresh_map_visibility(map, &filtered);
                }
                world.viewsheds.set(
                    e.index,
                    Some(Viewshed { visible_tiles: filtered, range, dirty: false }),
                );
                proof {
                    assert forall|j: int|
                        0 <= j < world.n() && world.slots@[j].state is Free
                        implies world.no_comps_at(j) by {
                        assert(pre.no_comps_at(j));
                    }
                    assert(vision_applies(w0, fov@, k as int));
                    if is_player_upd {
                        assert(player_vision(w0, fov@, k as int));
                    } else {
                        assert(!player_vision(w0, fov@, k as int));
                    }
                }
            }
        }
        proof {
            assert forall|i: int|
                0 <= i < w0.n() && !(exists|t: int| 0 <= t < k + 1 && fov@[t].entity.index == i)
                implies world.viewsheds@[i] == w0.viewsheds@[i] by {
                assert(fov@[k as int].entity.index != i);
                assert(!(exists|t: int| 0 <= t < k && fov@[t].entity.index == i));
                assert(world.viewsheds@[i] == pre.viewsheds@[i]);
            }
            assert forall|t: int|
                0 <= t < k + 1 && w0.present_at(fov@[t].entity.index as int)
                    && w0.slots@[fov@[t].entity.index as int].gen == fov@[t].entity.gen
                    && w0.viewsheds@[fov@[t].entity.index as int] is Some implies (
            world.viewsheds@[fov@[t].entity.index as int] matches Some(v) && v.dirty == false
                && v.visible_tiles@ == fov@[t].visible@.filter(
                |p: Point| m0.spec_in_bounds(p.x as int, p.y as int),
            )) by {
                if t < k {
                    assert(fov@[t].entity.index != fov@[k as int].entity.index);
                    assert(world.viewsheds@[fov@[t].entity.index as int]
                        == pre.viewsheds@[fov@[t].entity.index as int]);
                }
            }
            assert forall|t: int|
                (0 <= t < k + 1 && player_vision(w0, fov@, t) && (forall|t2: int|
                    0 <= t2 < fov@.len() && t2 != t ==> !player_vision(w0, fov@, t2))) implies {
                let vt = world.viewsheds@[fov@[t].entity.index as int]->Some_0.visible_tiles@;
                forall|c: int|
                    #![trigger map.visible_tiles@[c]]
                    0 <= c < m0.size() ==> (map.visible_tiles@[c] == exists|t3: int|
                        0 <= t3 < vt.len() && m0.spec_idx(vt[t3].x as int, vt[t3].y as int) == c)
            } by {
                if t < k {
                    assert(!player_vision(w0, fov@, k as int));
                    assert(fov@[t].entity.index != fov@[k as int].entity.index);
                    assert(world.viewsheds@[fov@[t].entity.index as int]
                        == pre.viewsheds@[fov@[t].entity.index as int]);
                }
            }
        }
        k = k + 1;
    }
}

/// Rebuilds the map's visible bitmap from the player's freshly computed
/// cells and accumulates them into the revealed bitmap.
fn refresh_map_visibility(map: &mut GameMap, cells: &Vec<Point>)
    requires
        old(map).wf(),
        forall|t: int|
            0 <= t < cells@.len() ==> old(map).spec_in_bounds(
                cells@[t].x as int,
                cells@[t].y as int,
            ),
    ensures
        final(map).wf(),
        final(map).width == old(map).width,
        final(map).height == old(map).height,
        final(map).tiles@ == old(map).tiles@,
        final(map).blocked@ == old(map).blocked@,
        final(map).tile_content@ == old(map).tile_content@,
        forall|c: int|
            #![trigger final(map).visible_tiles@[c]]
            0 <= c < old(map).size() ==> (final(map).visible_tiles@[c] == exists|t: int|
                0 <= t < cells@.len() && old(map).spec_idx(cells@[t].x as int, cells@[t].y as int)
                    == c),
        forall|c: int|
            #![trigger final(map).revealed_tiles@[c]]
            0 <= c < old(map).size() ==> (final(map).revealed_tiles@[c] == (old(map).revealed_tiles@[c] || exists|t: int|
                0 <= t < cells@.len() && old(map).spec_idx(cells@[t].x as int, cells@[t].y as int)
                    == c)),
{
    let ghost m0 = *old(map);
    let n = map.visible_tiles.len();
    let mut c: usize = 0;
    while c < n
        invariant
            m0.wf(),
            map.wf(),
            n == m0.size(),
            c <= n,
            map.width == m0.width,
            map.height == m0.height,
            map.tiles@ == m0.tiles@,
            map.blocked@ == m0.blocked@,
            map.tile_content@ == m0.tile_content@,
            map.revealed_tiles@ == m0.revealed_tiles@,
            forall|c2: int| 0 <= c2 < c ==> !map.visible_tiles@[c2],
            forall|c2: int| c <= c2 < n ==> map.visible_tiles@[c2] == m0.visible_tiles@[c2],
        decreases n - c,
    {
        map.visible_tiles[c] = false;
        c = c + 1;
    }
    let tn = cells.len();
    let mut t: usize = 0;
    while t < tn
        invariant
            m0.wf(),
            map.wf(),
            tn == cells@.len(),
            t <= tn,
            map.width == m0.width,
            map.height == m0.height,
            map.tiles@ == m0.tiles@,
            map.blocked@ == m0.blocked@,
            map.tile_content@ == m0.tile_content@,
            forall|j: int|
                0 <= j < cells@.len() ==> m0.spec_in_bounds(cells@[j].x as int, cells@[j].y as int),
            forall|c2: int|
                #![trigger map.visible_tiles@[c2]]
                0 <= c2 < m0.size() ==> (map.visible_tiles@[c2] == exists|j: int|
                    0 <= j < t && m0.spec_idx(cells@[j].x as int, cells@[j].y as int) == c2),
            forall|c2: int|
                #![trigger map.revealed_tiles@[c2]]
                0 <= c2 < m0.size() ==> (map.revealed_tiles@[c2] == (m0.revealed_tiles@[c2]
                    || exists|j: int|
                    0 <= j < t && m0.spec_idx(cells@[j].x as int, cells@[j].y as int) == c2)),
        decreases tn - t,
    {
        let ghost mpre = *map;
        let p = cells[t];
        let idx = map.xy_idx(p.x, p.y);
        map.visible_tiles[idx] = true;
        map.revealed_tiles[idx] = true;
        proof {
            assert forall|c2: int|
                0 <= c2 < m0.size() implies (map.visible_tiles@[c2] == exists|j: int|
                0 <= j < t + 1 && m0.spec_idx(cells@[j].x as int, cells@[j].y as int) == c2) by {
                if c2 == idx {
                    assert(m0.spec_idx(cells@[t as int].x as int, cells@[t as int].y as int) == c2);
                } else {
                    assert(map.visible_tiles@[c2] == mpre.visible_tiles@[c2]);
                    if exists|j: int|
                        0 <= j < t + 1 && m0.spec_idx(cells@[j].x as int, cells@[j].y as int)
                            == c2 {
                        let j = choose|j: int|
                            0 <= j < t + 1 && m0.spec_idx(cells@[j].x as int, cells@[j].y as int)
                                == c2;
                        assert(0 <= j < t && m0.spec_idx(
                            cells@[j].x as int,
                            cells@[j].y as int,
                        ) == c2);
                    }
                }
            }
            assert forall|c2: int|
                0 <= c2 < m0.size() implies (map.revealed_tiles@[c2] == (m0.revealed_tiles@[c2]
                || exists|j: int|
                0 <= j < t + 1 && m0.spec_idx(cells@[j].x as int, cells@[j].y as int) == c2)) by {
                if c2 == idx {
                    assert(m0.spec_idx(cells@[t as int].x as int, cells@[t as int].y as int) == c2);
                } else {
                    assert(map.revealed_tiles@[c2] == mpre.revealed_tiles@[c2]);
                    if exists|j: int|
                        0 <= j < t + 1 && m0.spec_idx(cells@[j].x as int, cells@[j].y as int)
                            == c2 {
                        let j = choose|j: int|
                            0 <= j < t + 1 && m0.spec_idx(cells@[j].x as int, cells@[j].y as int)
                                == c2;
                        assert(0 <= j < t && m0.spec_idx(
                            cells@[j].x as int,
                            cells@[j].y as int,
                        ) == c2);
                    }
                }
            }
        }
        t = t + 1;
    }
}

/// The main-menu step of the state machine: moving the cursor keeps the
/// menu open on the new selection; confirming the quit entry ends the
/// program; confirming anything else leaves the state for the front end to
/// act on (starting or loading a game).
pub fn main_menu_transition(current: RunState, result: MainMenuResult) -> (r: (RunState, bool))
    ensures
        result matches MainMenuResult::NoSelection { selected } ==> r == (
            RunState::MainMenu { menu_selection: selected },
            false,
        ),
        result == (MainMenuResult::Selected { selected: MainMenuSelection::Quit }) ==> r == (
            current,
            true,
        ),
        result matches MainMenuResult::Selected { selected } && selected != MainMenuSelection::Quit
            ==> r == (current, false),
{
    match result {
        MainMenuResult::NoSelection { selected } => (
            RunState::MainMenu { menu_selection: selected },
            false,
        ),
        MainMenuResult::Selected { selected } => {
            if matches!(selected, MainMenuSelection::Quit) {
                (current, true)
            } else {
                (current, false)
            }
        },
    }
}

/// The save step of the state machine: after the persistence gateway runs,
/// the scheduler falls back to the main menu pointing at the load entry.
pub fn after_save_transition() -> (r: RunState)
    ensures
        r == (RunState::MainMenu { menu_selection: MainMenuSelection::LoadGame }),
{
    RunState::MainMenu { menu_selection: MainMenuSelection::LoadGame }
}

/// The viewsheds that need a field-of-view recomputation this turn: each
/// dirty, positioned, seeing entity with its origin cell and range.
pub struct VisionRequest {
    pub entity: Entity,
    pub origin: Point,
    pub range: i32,
}

/// Whether slot `i` asks for a recomputation.
pub open spec fn vision_dirty(w: World, i: int) -> bool {
    &&& w.present_at(i)
    &&& w.positions@[i] is Some
    &&& match w.viewsheds@[i] {
        Some(v) => v.dirty,
        None => false,
    }
}

/// Lists the entities whose viewsheds are dirty, so that the visibility
/// collaborator can recompute exactly those.
pub fn dirty_viewsheds(w: &World) -> (out: Vec<VisionRequest>)
    requires
        w.wf(),
    ensures
        forall|k: int|
            #![trigger out@[k]]
            0 <= k < out@.len() ==> {
                let i = out@[k].entity.index as int;
                &&& vision_dirty(*w, i)
                &&& out@[k].entity == w.handle(i)
                &&& w.positions@[i] == Some(
                    Position { x: out@[k].origin.x, y: out@[k].origin.y },
                )
                &&& out@[k].range == w.viewsheds@[i]->Some_0.range
            },
        forall|i: int|
            0 <= i < w.n() && vision_dirty(*w, i) ==> exists|k: int|
                0 <= k < out@.len() && #[trigger] out@[k].entity.index == i,
        forall|a: int, b: int|
            0 <= a < out@.len() && 0 <= b < out@.len() && a != b ==> out@[a].entity.index
                != out@[b].entity.index,
{
    let mut out: Vec<VisionRequest> = Vec::new();
    let n = w.slots.len();
    let mut i: usize = 0;
    while i < n
        invariant
            w.wf(),
            n == w.n(),
            i <= n,
            forall|k: int|
                #![trigger out@[k]]
                0 <= k < out@.len() ==> {
                    let t = out@[k].entity.index as int;
                    &&& 0 <= t < i
                    &&& vision_dirty(*w, t)
                    &&& out@[k].entity == w.handle(t)
                    &&& w.positions@[t] == Some(
                        Position { x: out@[k].origin.x, y: out@[k].origin.y },
                    )
                    &&& out@[k].range == w.viewsheds@[t]->Some_0.range
                },
            forall|t: int|
                0 <= t < i && vision_dirty(*w, t) ==> exists|k: int|
                    0 <= k < out@.len() && #[trigger] out@[k].entity.index == t,
            forall|a: int, b: int|
                0 <= a < out@.len() && 0 <= b < out@.len() && a != b ==> out@[a].entity.index
                    != out@[b].entity.index,
        decreases n - i,
    {
        let slot = w.slots[i];
        let mut req: Option<VisionRequest> = None;
        if !matches!(slot.state, SlotState::Free) {
            let pos = match w.positions.get(i) {
                Some(p) => Some(*p),
                None => None,
            };
            if let Some(p) = pos {
                let dv = match w.viewsheds.get(i) {
                    Some(v) => {
                        if v.dirty {
                            Some(v.range)
                        } else {
                            None
                        }
                    },
                    None => None,
                };
                if let Some(range) = dv {
                    req = Some(
                        VisionRequest {
                            entity: Entity { index: i, gen: slot.gen },
                            origin: Point { x: p.x, y: p.y },
                            range,
                        },
                    );
                }
            }
        }
        let ghost pre = out@;
        match req {
            Some(r) => {
                out.push(r);
                proof {
                    assert forall|t: int|
                        0 <= t < i + 1 && vision_dirty(*w, t) implies exists|k: int|
                        0 <= k < out@.len() && #[trigger] out@[k].entity.index == t by {
                        if t == i {
                            assert(out@[out@.len() - 1].entity.index == i);
                        } else {
                            let k = choose|k: int|
                                0 <= k < pre.len() && #[trigger] pre[k].entity.index == t;
                            assert(out@[k].entity.index == t);
                        }
                    }
                }
            },
            None => {
                proof {
                    assert(!vision_dirty(*w, i as int));
                    assert forall|t: int|
                        0 <= t < i + 1 && vision_dirty(*w, t) implies exists|k: int|
                        0 <= k < out@.len() && #[trigger] out@[k].entity.index == t by {
                        let k = choose|k: int|
                            0 <= k < pre.len() && #[trigger] pre[k].entity.index == t;
                        assert(out@[k].entity.index == t);
                    }
                }
            },
        }
        i = i + 1;
    }
    out
}

/// Everything visibility intake guarantees, as one relation between the
/// before and after states (its contract, verbatim).
pub open spec fn vis_rel(
    w0: World,
    m0: GameMap,
    w1: World,
    m1: GameMap,
    fov: Seq<VisionUpdate>,
    player: Entity,
) -> bool {
    &&& (w1.wf())
    &&& (w1.n() == w0.n())
    &&& (w1.slots@ == w0.slots@)
    &&& (m1.wf())
    &&& (m1.width == m0.width)
    &&& (m1.height == m0.height)
    &&& (m1.tiles@ == m0.tiles@)
    &&& (m1.blocked@ == m0.blocked@)
    &&& (m1.tile_content@.len() == m0.tile_content@.len())
    &&& (forall|c: int|
            0 <= c < m0.size() ==> m1.tile_content@[c]@ == m0.tile_content@[c]@)
    &&& (positions_in_bounds(w1, m1))
    &&& (forall|c: int|
            0 <= c < m0.size() && m0.revealed_tiles@[c] ==> m1.revealed_tiles@[c])
    &&& (forall|k: int|
            #![trigger fov[k]]
            0 <= k < fov.len() && w0.present_at(fov[k].entity.index as int) && w0.slots@[fov[k].entity.index as int].gen == fov[k].entity.gen && w0.viewsheds@[fov[k].entity.index as int] is Some ==> (w1.viewsheds@[fov[k].entity.index as int] matches Some(v) && v.dirty == false
                && v.visible_tiles@ == fov[k].visible@.filter(
                |p: Point| m0.spec_in_bounds(p.x as int, p.y as int),
            )))
    &&& (forall|i: int|
            #![trigger w1.viewsheds@[i]]
            0 <= i < w0.n() && !(exists|k: int|
                0 <= k < fov.len() && fov[k].entity.index == i) ==> w1.viewsheds@[i]
                == w0.viewsheds@[i])
    &&& ((forall|k: int| 0 <= k < fov.len() ==> !player_vision(w0, fov, k)) ==> m1.visible_tiles@
        == m0.visible_tiles@ && m1.revealed_tiles@ == m0.revealed_tiles@)
    &&& (forall|k: int|
            (player_vision(w0, fov, k) && (forall|k2: int|
                0 <= k2 < fov.len() && k2 != k ==> !player_vision(w0, fov, k2))) ==> {
                let vt = w1.viewsheds@[fov[k].entity.index as int]->Some_0.visible_tiles@;
                forall|c: int|
                    #![trigger m1.visible_tiles@[c]]
                    0 <= c < m0.size() ==> (m1.visible_tiles@[c] == exists|t: int|
                        0 <= t < vt.len() && m0.spec_idx(vt[t].x as int, vt[t].y as int) == c)
            })
    &&& (w1.positions@ == w0.positions@)
    &&& (w1.renderables@ == w0.renderables@)
    &&& (w1.names@ == w0.names@)
    &&& (w1.blockers@ == w0.blockers@)
    &&& (w1.items@ == w0.items@)
    &&& (w1.backpacks@ == w0.backpacks@)
    &&& (w1.pickup_intents@ == w0.pickup_intents@)
    &&& (w1.healing@ == w0.healing@)
    &&& (w1.consumables@ == w0.consumables@)
    &&& (w1.use_intents@ == w0.use_intents@)
    &&& (w1.drop_intents@ == w0.drop_intents@)
    &&& (w1.speeds@ == w0.speeds@)
    &&& (w1.combat_stats@ == w0.combat_stats@)
    &&& (w1.suffering@ == w0.suffering@)
    &&& (w1.melee_intents@ == w0.melee_intents@)
    &&& (w1.ranged@ == w0.ranged@)
    &&& (w1.inflicts@ == w0.inflicts@)
    &&& (w1.players@ == w0.players@)
    &&& (w1.monsters@ == w0.monsters@)
    &&& (w1.markers@ == w0.markers@)
    &&& (w1.helpers@ == w0.helpers@)
}

/// One full turn of the fixed pipeline: intermediate worlds, maps and log
/// contents exist that link the start state to the end state through each
/// pass's stated contract, in the scheduler's order.
pub open spec fn turn_rel(
    s0: State,
    s1: State,
    fov: Seq<VisionUpdate>,
    now_ms: u64,
    l0: Seq<Seq<char>>,
    l1: Seq<Seq<char>>,
    b: nat,
) -> bool {
    exists|steps: TurnSteps|
        {
            &&& #[trigger] vis_rel(
                s0.ecs,
                s0.map,
                steps.after_vision,
                steps.mid_map,
                fov,
                s0.player_entity,
            )
            &&& crate::monster_ai_system::ai_rel(
                steps.after_vision,
                steps.after_ai,
                steps.mid_map,
                s0.player_pos,
                s0.player_entity,
                now_ms,
            )
            &&& crate::map_indexing_system::index_rel(steps.mid_map, s1.map, steps.after_ai)
            &&& crate::melee_combat_system::melee_rel(
                steps.after_ai,
                steps.after_melee,
                l0,
                b,
                steps.log_melee,
            )
            &&& crate::damage_system::damage_rel(steps.after_melee, steps.after_damage)
            &&& crate::damage_system::sweep_rel(
                steps.after_damage,
                steps.after_sweep,
                steps.log_melee,
                b,
                steps.log_sweep,
            )
            &&& crate::inventory_system::pickup_rel(
                steps.after_sweep,
                steps.after_pickup,
                steps.log_sweep,
                b,
                steps.log_pickup,
                s0.player_entity,
            )
            &&& crate::inventory_system::use_rel(
                steps.after_pickup,
                steps.after_use,
                steps.log_pickup,
                b,
                steps.log_use,
                s0.player_entity,
            )
            &&& crate::inventory_system::drop_rel(
                steps.after_use,
                steps.after_drop,
                steps.log_use,
                b,
                l1,
                s0.player_entity,
            )
            &&& crate::world::maintain_rel(steps.after_drop, s1.ecs)
        }
}

/// The intermediate states of one turn, witnesses of `turn_rel`.
pub struct TurnSteps {
    pub after_vision: World,
    pub after_ai: World,
    pub after_melee: World,
    pub after_damage: World,
    pub after_sweep: World,
    pub after_pickup: World,
    pub after_use: World,
    pub after_drop: World,
    pub mid_map: GameMap,
    pub log_melee: Seq<Seq<char>>,
    pub log_sweep: Seq<Seq<char>>,
    pub log_pickup: Seq<Seq<char>>,
    pub log_use: Seq<Seq<char>>,
}

} // verus!
