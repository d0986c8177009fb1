//! Player actions: moving (or attacking what stands in the way) and picking
//! an item off the floor. These run outside the fixed system pipeline,
//! directly from input handling, and only write intent components or the
//! player's own position.

use vstd::prelude::*;

use crate::components::Item;
use crate::components::Point;
use crate::components::Position;
use crate::components::Viewshed;
use crate::components::WantsToMelee;
use crate::components::WantsToPickupItem;
use crate::entity::Entity;
use crate::gamelog::GameLog;
use crate::gamelog::log_push_spec;
use crate::map::GameMap;
use crate::world::World;

verus! {

/// The first entity of a cell's occupant list that is live and carries
/// combat stats: what a moving player attacks instead of stepping there.
pub open spec fn first_combat_target(w: World, s: Seq<Entity>) -> Option<Entity>
    decreases s.len(),
{
    if s.len() == 0 {
        None
    } else if w.valid(s[0]) && w.combat_stats@[s[0].index as int] is Some {
        Some(s[0])
    } else {
        first_combat_target(w, s.drop_first())
    }
}

/// The last entity of a cell's occupant list that is a live, positioned
/// item: what a pickup at that cell collects.
pub open spec fn last_item_in(w: World, s: Seq<Entity>) -> Option<Entity>
    decreases s.len(),
{
    if s.len() == 0 {
        None
    } else if w.valid(s.last()) && w.items@[s.last().index as int] is Some
        && w.positions@[s.last().index as int] is Some {
        Some(s.last())
    } else {
        last_item_in(w, s.drop_last())
    }
}

/// The player is in shape to act: alive, tagged, positioned, seeing.
pub open spec fn player_ready(w: World, player: Entity) -> bool {
    &&& w.alive(player)
    &&& w.players@[player.index as int] is Some
    &&& w.positions@[player.index as int] is Some
    &&& w.viewsheds@[player.index as int] is Some
}

/// The player's one-step destination lies on the grid: the caller's
/// obligation before a move is attempted.
pub open spec fn move_dest_in_bounds(
    w: World,
    map: GameMap,
    player: Entity,
    delta_x: int,
    delta_y: int,
) -> bool {
    player_ready(w, player) ==> {
        let p = w.positions@[player.index as int]->Some_0;
        map.spec_in_bounds(p.x + delta_x, p.y + delta_y)
    }
}

/// What one attempted player step leaves behind: a melee intent against the
/// first live combat-capable occupant of the destination, or a move onto an
/// unblocked cell (dirtying the viewshed and the position resource), or
/// nothing at all when the cell is blocked.
pub open spec fn moved_player(
    w0: World,
    w1: World,
    map: GameMap,
    pp0: Point,
    pp1: Point,
    player: Entity,
    delta_x: int,
    delta_y: int,
) -> bool {
    let p = w0.positions@[player.index as int]->Some_0;
    let dest = map.spec_idx(p.x + delta_x, p.y + delta_y);
    match first_combat_target(w0, map.tile_content@[dest]@) {
        Some(target) => {
            &&& w1.melee_intents@ == w0.melee_intents@.update(
                player.index as int,
                Some(WantsToMelee { target }),
            )
            &&& w1.positions@ == w0.positions@
            &&& w1.viewsheds@ == w0.viewsheds@
            &&& pp1 == pp0
        },
        None => {
            &&& w1.melee_intents@ == w0.melee_intents@
            &&& if !map.blocked@[dest] {
                &&& w1.positions@ == w0.positions@.update(
                    player.index as int,
                    Some(Position { x: (p.x + delta_x) as i32, y: (p.y + delta_y) as i32 }),
                )
                &&& w1.viewsheds@[player.index as int] == Some(
                    Viewshed { dirty: true, ..w0.viewsheds@[player.index as int]->Some_0 },
                )
                &&& forall|j: int|
                    0 <= j < w0.n() && j != player.index ==> w1.viewsheds@[j] == w0.viewsheds@[j]
                &&& pp1 == (Point { x: (p.x + delta_x) as i32, y: (p.y + delta_y) as i32 })
            } else {
                &&& w1.positions@ == w0.positions@
                &&& w1.viewsheds@ == w0.viewsheds@
                &&& pp1 == pp0
            }
        },
    }
}

/// Tries to move the player by one step. If the destination cell holds a
/// live entity with combat stats, a melee intent against the first such
/// occupant is written instead and the player stays put. Otherwise, if the
/// destination is not blocked, the player moves there, its viewshed turns
/// dirty, and the player-position resource follows. A blocked destination,
/// or a player that is not ready, changes nothing.
pub fn try_move_player(
    delta_x: i32,
    delta_y: i32,
    world: &mut World,
    map: &GameMap,
    player_pos: &mut Point,
    player: Entity,
)
    requires
        old(world).wf(),
        map.wf(),
        move_dest_in_bounds(*old(world), *map, player, delta_x as int, delta_y as int),
    ensures
        final(world).wf(),
        final(world).n() == old(world).n(),
        final(world).slots@ == old(world).slots@,
        !player_ready(*old(world), player) ==> *final(world) == *old(world) && *final(player_pos)
            == *old(player_pos),
        player_ready(*old(world), player) ==> moved_player(
            *old(world),
            *final(world),
            *map,
            *old(player_pos),
            *final(player_pos),
            player,
            delta_x as int,
            delta_y as int,
        ),
        final(world).renderables@ == old(world).renderables@,
        final(world).names@ == old(world).names@,
        final(world).blockers@ == old(world).blockers@,
        final(world).items@ == old(world).items@,
        final(world).backpacks@ == old(world).backpacks@,
        final(world).pickup_intents@ == old(world).pickup_intents@,
        final(world).healing@ == old(world).healing@,
        final(world).consumables@ == old(world).consumables@,
        final(world).use_intents@ == old(world).use_intents@,
        final(world).drop_intents@ == old(world).drop_intents@,
        final(world).speeds@ == old(world).speeds@,
        final(world).combat_stats@ == old(world).combat_stats@,
        final(world).suffering@ == old(world).suffering@,
        final(world).ranged@ == old(world).ranged@,
        final(world).inflicts@ == old(world).inflicts@,
        final(world).players@ == old(world).players@,
        final(world).monsters@ == old(world).monsters@,
        final(world).markers@ == old(world).markers@,
        final(world).helpers@ == old(world).helpers@,
        move_rel(
            *old(world),
            *final(world),
            *map,
            *old(player_pos),
            *final(player_pos),
            player,
            delta_x as int,
            delta_y as int,
        ),
{
    let ghost w0 = *old(world);
    if !world.is_alive(player) {
        return ;
    }
    let has_tag = match world.players.get(player.index) {
        Some(_) => true,
        None => false,
    };
    if !has_tag {
        return ;
    }
    let pos = match world.positions.get(player.index) {
        Some(p) => *p,
        None => {
            return ;
        },
    };
    let has_viewshed = match world.viewsheds.get(player.index) {
        Some(_) => true,
        None => false,
    };
    if !has_viewshed {
        return ;
    }
    let destination_idx = map.xy_idx(pos.x + delta_x, pos.y + delta_y);
    let content = &map.tile_content[destination_idx];
    let m = content.len();
    let mut k: usize = 0;
    proof {
        assert(content@.subrange(0, m as int) =~= content@);
    }
    while k < m
        invariant
            w0 == *old(world),
            w0.wf(),
            *world == w0,
            map.wf(),
            player_ready(w0, player),
            w0.positions@[player.index as int] == Some(pos),
            map.spec_in_bounds(pos.x + delta_x, pos.y + delta_y),
            destination_idx == map.spec_idx(pos.x + delta_x, pos.y + delta_y),
            0 <= destination_idx < map.size(),
            content@ == map.tile_content@[destination_idx as int]@,
            m == content@.len(),
            k <= m,
            first_combat_target(w0, content@) == first_combat_target(
                w0,
                content@.subrange(k as int, m as int),
            ),
        decreases m - k,
    {
        let e = content[k];
        let is_target = world.is_valid(e) && (match world.combat_stats.get(e.index) {
            Some(_) => true,
            None => false,
        });
        proof {
            assert(content@.subrange(k as int, m as int)[0] == e);
        }
        if is_target {
            world.melee_intents.set(player.index, Some(WantsToMelee { target: e }));
            proof {
                assert(first_combat_target(w0, content@) == Some(e));
                assert forall|j: int|
                    0 <= j < world.n() && world.slots@[j].state is Free implies world.no_comps_at(
                    j,
                ) by {
                    assert(w0.no_comps_at(j));
                }
            }
            return ;
        }
        proof {
            assert(content@.subrange(k as int, m as int).drop_first() =~= content@.subrange(
                k + 1,
                m as int,
            ));
        }
        k = k + 1;
    }
    proof {
        assert(content@.subrange(m as int, m as int).len() == 0);
        assert(first_combat_target(w0, content@) is None);
    }
    if !map.blocked[destination_idx] {
        world.positions.set(player.index, Some(Position { x: pos.x + delta_x, y: pos.y + delta_y }));
        match world.viewsheds.entry_mut(player.index) {
            Some(v) => {
                v.dirty = true;
            },
            None => {},
        }
        player_pos.x = pos.x + delta_x;
        player_pos.y = pos.y + delta_y;
        proof {
            assert forall|j: int|
                0 <= j < world.n() && world.slots@[j].state is Free implies world.no_comps_at(
                j,
            ) by {
                assert(w0.no_comps_at(j));
            }
        }
    }
}

/// What one pickup attempt leaves behind: an intent for the last live item
/// at the cell, or only the there-is-nothing message.
pub open spec fn got_item(
    w0: World,
    w1: World,
    log0: Seq<Seq<char>>,
    bound: nat,
    log1: Seq<Seq<char>>,
    map: GameMap,
    player: Entity,
    player_pos: Point,
) -> bool {
    let dest = map.spec_idx(player_pos.x as int, player_pos.y as int);
    match last_item_in(w0, map.tile_content@[dest]@) {
        Some(item) => w1.pickup_intents@ == w0.pickup_intents@.update(
            player.index as int,
            Some(WantsToPickupItem { collected_by: player, item }),
        ) && log1 == log0,
        None => w1.pickup_intents@ == w0.pickup_intents@ && log1 == log_push_spec(
            log0,
            bound,
            "There is nothing here to pick up."@,
        ),
    }
}

/// Picks up the last live item lying at the player's cell, writing a pickup
/// intent; when there is none, only a message is logged.
pub fn get_item(
    world: &mut World,
    map: &GameMap,
    log: &mut GameLog,
    player: Entity,
    player_pos: Point,
)
    requires
        old(world).wf(),
        map.wf(),
        map.spec_in_bounds(player_pos.x as int, player_pos.y as int),
        old(world).alive(player),
    ensures
        final(world).wf(),
        final(world).n() == old(world).n(),
        final(world).slots@ == old(world).slots@,
        final(log).bound() == old(log).bound(),
        got_item(
            *old(world),
            *final(world),
            old(log)@,
            old(log).bound(),
            final(log)@,
            *map,
            player,
            player_pos,
        ),
        final(world).positions@ == old(world).positions@,
        final(world).renderables@ == old(world).renderables@,
        final(world).names@ == old(world).names@,
        final(world).blockers@ == old(world).blockers@,
        final(world).items@ == old(world).items@,
        final(world).backpacks@ == old(world).backpacks@,
        final(world).healing@ == old(world).healing@,
        final(world).consumables@ == old(world).consumables@,
        final(world).use_intents@ == old(world).use_intents@,
        final(world).drop_intents@ == old(world).drop_intents@,
        final(world).speeds@ == old(world).speeds@,
        final(world).combat_stats@ == old(world).combat_stats@,
        final(world).suffering@ == old(world).suffering@,
        final(world).melee_intents@ == old(world).melee_intents@,
        final(world).ranged@ == old(world).ranged@,
        final(world).inflicts@ == old(world).inflicts@,
        final(world).players@ == old(world).players@,
        final(world).viewsheds@ == old(world).viewsheds@,
        final(world).monsters@ == old(world).monsters@,
        final(world).markers@ == old(world).markers@,
        final(world).helpers@ == old(world).helpers@,
{
    let ghost w0 = *old(world);
    let idx = map.xy_idx(player_pos.x, player_pos.y);
    let content = &map.tile_content[idx];
    let mut target_item: Option<Entity> = None;
    let m = content.len();
    let mut k: usize = 0;
    while k < m
        invariant
            w0 == *old(world),
            w0.wf(),
            *world == w0,
            w0.alive(player),
            m == content@.len(),
            k <= m,
            target_item == last_item_in(w0, content@.subrange(0, k as int)),
        decreases m - k,
    {
        let e = content[k];
        let is_item = world.is_valid(e) && (match world.items.get(e.index) {
            Some(_) => true,
            None => false,
        }) && (match world.positions.get(e.index) {
            Some(_) => true,
            None => false,
        });
        if is_item {
            target_item = Some(e);
        }
        proof {
            assert(content@.subrange(0, k + 1).last() == e);
            assert(content@.subrange(0, k + 1).drop_last() =~= content@.subrange(0, k as int));
        }
        k = k + 1;
    }
    proof {
        assert(content@.subrange(0, m as int) =~= content@);
    }
    match target_item {
        None => {
            log.push(String::from_str("There is nothing here to pick up."));
        },
        Some(item) => {
            world.pickup_intents.set(
                player.index,
                Some(WantsToPickupItem { collected_by: player, item }),
            );
            proof {
                assert forall|j: int|
                    0 <= j < world.n() && world.slots@[j].state is Free implies world.no_comps_at(
                    j,
                ) by {
                    assert(w0.no_comps_at(j));
                }
            }
        },
    }
}

/// Which physical keys the front end saw held down this frame.
#[derive(Clone, Copy, PartialEq, Eq, Structural, Debug)]
pub struct KeysPressed {
    pub pick_up: bool,
    pub inventory: bool,
    pub escape: bool,
    pub drop_toggle: bool,
    pub left: bool,
    pub right: bool,
    pub up: bool,
    pub down: bool,
}

/// Handles one frame of player input: the pickup key collects what lies
/// underfoot, the inventory and drop-mode keys toggle the overlay flags, the
/// escape key closes the overlay or (outside it) requests a save, and the
/// arrow keys move the player one step per axis, gated by the player's
/// movement-rate limiter. Every key press is gated by its own repeat delays.
pub fn player_input(
    gs: &mut crate::State,
    keys: &KeysPressed,
    now_ms: u64,
) -> (rs: crate::RunState)
    requires
        old(gs).wf(),
    ensures
        final(gs).wf(),
        // the escape key outside the overlay requests a save; anything else
        // keeps the simulation running
        rs == (if input_saves(old(gs).client, *keys, now_ms) {
            crate::RunState::SaveGame
        } else {
            crate::RunState::Running
        }),
        // the key records and overlay flags advance exactly one frame
        final(gs).client == client_frame(old(gs).client, *keys, now_ms),
        final(gs).player_entity == old(gs).player_entity,
        final(gs).run_state == old(gs).run_state,
        final(gs).map == old(gs).map,
        // a registered pickup press collects what lies underfoot, then (save
        // requests aside) one gated movement step per axis follows
        exists|wmid: World|
            {
                &&& #[trigger] grab_rel(
                    old(gs).ecs,
                    wmid,
                    old(gs).log@,
                    old(gs).log.bound(),
                    final(gs).log@,
                    old(gs).map,
                    old(gs).player_entity,
                    old(gs).player_pos,
                    key_fires(old(gs).client.key_e, keys.pick_up, now_ms),
                )
                &&& (input_saves(old(gs).client, *keys, now_ms) ==> final(gs).ecs == wmid
                    && final(gs).player_pos == old(gs).player_pos)
                &&& (!input_saves(old(gs).client, *keys, now_ms) ==> movement_rel(
                    wmid,
                    final(gs).ecs,
                    old(gs).map,
                    old(gs).player_pos,
                    final(gs).player_pos,
                    old(gs).player_entity,
                    *keys,
                    now_ms,
                ))
            },
        // input writes intents and moves the player; it never touches the
        // rest of the store
        final(gs).ecs.slots@ == old(gs).ecs.slots@,
        final(gs).ecs.names@ == old(gs).ecs.names@,
        final(gs).ecs.combat_stats@ == old(gs).ecs.combat_stats@,
        final(gs).ecs.suffering@ == old(gs).ecs.suffering@,
        final(gs).ecs.backpacks@ == old(gs).ecs.backpacks@,
        final(gs).ecs.items@ == old(gs).ecs.items@,
        final(gs).ecs.consumables@ == old(gs).ecs.consumables@,
        final(gs).ecs.healing@ == old(gs).ecs.healing@,
        final(gs).ecs.use_intents@ == old(gs).ecs.use_intents@,
        final(gs).ecs.drop_intents@ == old(gs).ecs.drop_intents@,
        final(gs).ecs.players@ == old(gs).ecs.players@,
        final(gs).ecs.monsters@ == old(gs).ecs.monsters@,
        final(gs).ecs.markers@ == old(gs).ecs.markers@,
        final(gs).ecs.helpers@ == old(gs).ecs.helpers@,
{
    let player = gs.player_entity;
    // Interaction
    if crate::keys_util::try_press(keys.pick_up, &mut gs.client.key_e, now_ms) {
        if gs.ecs.is_alive(player) {
            get_item(&mut gs.ecs, &gs.map, &mut gs.log, player, gs.player_pos);
        }
    }
    let ghost wmid = gs.ecs;
    proof {
        assert(grab_rel(
            old(gs).ecs,
            wmid,
            old(gs).log@,
            old(gs).log.bound(),
            gs.log@,
            old(gs).map,
            old(gs).player_entity,
            old(gs).player_pos,
            key_fires(old(gs).client.key_e, keys.pick_up, now_ms),
        ));
    }
    // Toggle/close inventory
    if crate::keys_util::try_press(keys.inventory, &mut gs.client.key_i, now_ms) {
        gs.client.show_inventory = !gs.client.show_inventory;
    }
    if crate::keys_util::try_press(keys.escape, &mut gs.client.key_escape, now_ms) {
        if !gs.client.show_inventory {
            proof {
                assert(gs.client == client_frame(old(gs).client, *keys, now_ms));
                assert(input_saves(old(gs).client, *keys, now_ms));
            }
            return crate::RunState::SaveGame;
        }
        gs.client.show_inventory = false;
        gs.client.drop_inventory = false;
    }
    if crate::keys_util::try_press(keys.drop_toggle, &mut gs.client.key_g, now_ms)
        && gs.client.show_inventory {
        gs.client.drop_inventory = !gs.client.drop_inventory;
    }
    proof {
        assert(gs.client == client_frame(old(gs).client, *keys, now_ms));
        assert(!input_saves(old(gs).client, *keys, now_ms));
    }
    // Movement
    player_input_free_movement(gs, keys, now_ms);
    proof {
        assert(movement_rel(
            wmid,
            gs.ecs,
            old(gs).map,
            old(gs).player_pos,
            gs.player_pos,
            old(gs).player_entity,
            *keys,
            now_ms,
        ));
    }
    crate::RunState::Running
}

/// Free movement: one step per axis and frame, gated by the player's own
/// movement-rate limiter rather than the input source.
fn player_input_free_movement(gs: &mut crate::State, keys: &KeysPressed, now_ms: u64)
    requires
        old(gs).wf(),
    ensures
        final(gs).wf(),
        final(gs).player_entity == old(gs).player_entity,
        final(gs).run_state == old(gs).run_state,
        final(gs).client == old(gs).client,
        final(gs).log == old(gs).log,
        final(gs).map == old(gs).map,
        movement_rel(
            old(gs).ecs,
            final(gs).ecs,
            old(gs).map,
            old(gs).player_pos,
            final(gs).player_pos,
            old(gs).player_entity,
            *keys,
            now_ms,
        ),
        final(gs).ecs.slots@ == old(gs).ecs.slots@,
        final(gs).ecs.names@ == old(gs).ecs.names@,
        final(gs).ecs.combat_stats@ == old(gs).ecs.combat_stats@,
        final(gs).ecs.suffering@ == old(gs).ecs.suffering@,
        final(gs).ecs.backpacks@ == old(gs).ecs.backpacks@,
        final(gs).ecs.items@ == old(gs).ecs.items@,
        final(gs).ecs.consumables@ == old(gs).ecs.consumables@,
        final(gs).ecs.healing@ == old(gs).ecs.healing@,
        final(gs).ecs.use_intents@ == old(gs).ecs.use_intents@,
        final(gs).ecs.drop_intents@ == old(gs).ecs.drop_intents@,
        final(gs).ecs.pickup_intents@ == old(gs).ecs.pickup_intents@,
        final(gs).ecs.players@ == old(gs).ecs.players@,
        final(gs).ecs.monsters@ == old(gs).ecs.monsters@,
        final(gs).ecs.markers@ == old(gs).ecs.markers@,
        final(gs).ecs.helpers@ == old(gs).ecs.helpers@,
{
    let player = gs.player_entity;
    // the player's own rate limiter gates the whole move
    if !gs.ecs.is_alive(player) {
        return ;
    }
    let mut speed = match gs.ecs.speeds.get(player.index) {
        Some(s) => *s,
        None => {
            return ;
        },
    };
    if !crate::movement_util::can_move(&mut speed, now_ms) {
        return ;
    }
    gs.ecs.speeds.set(player.index, Some(speed));
    proof {
        assert forall|j: int|
            0 <= j < gs.ecs.n() && gs.ecs.slots@[j].state is Free implies gs.ecs.no_comps_at(
            j,
        ) by {
            assert(old(gs).ecs.no_comps_at(j));
        }
    }
    let ghost wg = gs.ecs;
    let mut delta_x: i32 = 0;
    let mut delta_y: i32 = 0;
    if keys.left {
        delta_x = delta_x - 1;
    }
    if keys.right {
        delta_x = delta_x + 1;
    }
    if keys.up {
        delta_y = delta_y - 1;
    }
    if keys.down {
        delta_y = delta_y + 1;
    }
    // The player may move in the two axes independently; each step is
    // attempted only when its destination lies on the grid.
    if delta_x != 0 {
        move_player_checked(gs, delta_x, 0);
    }
    let ghost wx = gs.ecs;
    let ghost ppx = gs.player_pos;
    if delta_y != 0 {
        move_player_checked(gs, 0, delta_y);
    }
    proof {
        assert(axis_rel(
            wg,
            wx,
            old(gs).map,
            old(gs).player_pos,
            ppx,
            old(gs).player_entity,
            delta_x as int,
            0,
        ));
        assert(axis_rel(
            wx,
            gs.ecs,
            old(gs).map,
            ppx,
            gs.player_pos,
            old(gs).player_entity,
            0,
            delta_y as int,
        ));
        assert(wg.slots@ == old(gs).ecs.slots@);
        assert(World::comps_eq_except_speeds(old(gs).ecs, wg));
        assert(wg.speeds@ == old(gs).ecs.speeds@.update(
            old(gs).player_entity.index as int,
            Some(
                crate::components::MovementSpeed {
                    last_move_time: Some(now_ms),
                    ..old(gs).ecs.speeds@[old(gs).player_entity.index as int]->Some_0
                },
            ),
        ));
        assert(movement_witness(wg, wx, ppx));
        assert(delta_x as int == (if keys.left { -1int } else { 0int }) + (if keys.right { 1int } else { 0int }));
        assert(delta_y as int == (if keys.up { -1int } else { 0int }) + (if keys.down { 1int } else { 0int }));
        assert(axis_rel(
            wg,
            wx,
            old(gs).map,
            old(gs).player_pos,
            ppx,
            old(gs).player_entity,
            (if keys.left { -1int } else { 0int }) + (if keys.right { 1int } else { 0int }),
            0,
        ));
        assert(axis_rel(
            wx,
            gs.ecs,
            old(gs).map,
            ppx,
            gs.player_pos,
            old(gs).player_entity,
            0,
            (if keys.up { -1int } else { 0int }) + (if keys.down { 1int } else { 0int }),
        ));
        assert(movement_rel(
            old(gs).ecs,
            gs.ecs,
            old(gs).map,
            old(gs).player_pos,
            gs.player_pos,
            old(gs).player_entity,
            *keys,
            now_ms,
        ));
    }
}

/// Attempts one player step after validating that the destination is on the
/// grid (an off-grid destination is simply not attempted).
fn move_player_checked(gs: &mut crate::State, delta_x: i32, delta_y: i32)
    requires
        old(gs).wf(),
        -1 <= delta_x <= 1,
        -1 <= delta_y <= 1,
        !(delta_x == 0 && delta_y == 0),
    ensures
        final(gs).wf(),
        final(gs).player_entity == old(gs).player_entity,
        final(gs).run_state == old(gs).run_state,
        final(gs).client == old(gs).client,
        final(gs).log == old(gs).log,
        final(gs).map == old(gs).map,
        axis_rel(
            old(gs).ecs,
            final(gs).ecs,
            old(gs).map,
            old(gs).player_pos,
            final(gs).player_pos,
            old(gs).player_entity,
            delta_x as int,
            delta_y as int,
        ),
        final(gs).ecs.slots@ == old(gs).ecs.slots@,
        final(gs).ecs.names@ == old(gs).ecs.names@,
        final(gs).ecs.combat_stats@ == old(gs).ecs.combat_stats@,
        final(gs).ecs.suffering@ == old(gs).ecs.suffering@,
        final(gs).ecs.backpacks@ == old(gs).ecs.backpacks@,
        final(gs).ecs.items@ == old(gs).ecs.items@,
        final(gs).ecs.consumables@ == old(gs).ecs.consumables@,
        final(gs).ecs.healing@ == old(gs).ecs.healing@,
        final(gs).ecs.use_intents@ == old(gs).ecs.use_intents@,
        final(gs).ecs.drop_intents@ == old(gs).ecs.drop_intents@,
        final(gs).ecs.pickup_intents@ == old(gs).ecs.pickup_intents@,
        final(gs).ecs.players@ == old(gs).ecs.players@,
        final(gs).ecs.monsters@ == old(gs).ecs.monsters@,
        final(gs).ecs.markers@ == old(gs).ecs.markers@,
        final(gs).ecs.helpers@ == old(gs).ecs.helpers@,
        final(gs).ecs.speeds@ == old(gs).ecs.speeds@,
{
    let player = gs.player_entity;
    if !gs.ecs.is_alive(player) {
        return ;
    }
    let has_tag = match gs.ecs.players.get(player.index) {
        Some(_) => true,
        None => false,
    };
    let has_viewshed = match gs.ecs.viewsheds.get(player.index) {
        Some(_) => true,
        None => false,
    };
    let pos = match gs.ecs.positions.get(player.index) {
        Some(p) => *p,
        None => {
            return ;
        },
    };
    if !has_tag || !has_viewshed {
        return ;
    }
    if !gs.map.in_bounds(pos.x + delta_x, pos.y + delta_y) {
        return ;
    }
    let ghost e0 = gs.ecs;
    try_move_player(delta_x, delta_y, &mut gs.ecs, &gs.map, &mut gs.player_pos, player);
    proof {
        assert(player_ready(e0, player));
        let p0 = e0.positions@[player.index as int]->Some_0;
        assert forall|j: int|
            #![trigger gs.ecs.positions@[j]]
            0 <= j < gs.ecs.n() && gs.ecs.present_at(j) implies match gs.ecs.positions@[j] {
            Some(p) => gs.map.spec_in_bounds(p.x as int, p.y as int),
            None => true,
        } by {
            if !(gs.ecs.positions@[j] == e0.positions@[j]) {
                assert(j == player.index);
                assert(gs.ecs.positions@[j] == Some(
                    Position { x: (p0.x + delta_x) as i32, y: (p0.y + delta_y) as i32 },
                ));
            }
        }
    }
}

/// Everything one attempted player step guarantees, as one relation between
/// the before and after states (try_move_player's contract, verbatim).
pub open spec fn move_rel(
    w0: World,
    w1: World,
    m: GameMap,
    pp0: Point,
    pp1: Point,
    player: Entity,
    delta_x: int,
    delta_y: int,
) -> bool {
    &&& (w1.wf())
    &&& (w1.n() == w0.n())
    &&& (w1.slots@ == w0.slots@)
    &&& (!player_ready(w0, player) ==> w1 == w0 && pp1
            == pp0)
    &&& (player_ready(w0, player) ==> moved_player(
            w0,
            w1,
            m,
            pp0,
            pp1,
            player,
            delta_x as int,
            delta_y as int,
        ))
    &&& (w1.renderables@ == w0.renderables@)
    &&& (w1.names@ == w0.names@)
    &&& (w1.blockers@ == w0.blockers@)
    &&& (w1.items@ == w0.items@)
    &&& (w1.backpacks@ == w0.backpacks@)
    &&& (w1.pickup_intents@ == w0.pickup_intents@)
    &&& (w1.healing@ == w0.healing@)
    &&& (w1.consumables@ == w0.consumables@)
    &&& (w1.use_intents@ == w0.use_intents@)
    &&& (w1.drop_intents@ == w0.drop_intents@)
    &&& (w1.speeds@ == w0.speeds@)
    &&& (w1.combat_stats@ == w0.combat_stats@)
    &&& (w1.suffering@ == w0.suffering@)
    &&& (w1.ranged@ == w0.ranged@)
    &&& (w1.inflicts@ == w0.inflicts@)
    &&& (w1.players@ == w0.players@)
    &&& (w1.monsters@ == w0.monsters@)
    &&& (w1.markers@ == w0.markers@)
    &&& (w1.helpers@ == w0.helpers@)
}

/// One gated axis attempt: a step is tried exactly when the delta is
/// nonzero, the player is ready and the destination is on the grid;
/// otherwise nothing moves.
pub open spec fn axis_rel(
    w0: World,
    w1: World,
    m: GameMap,
    pp0: Point,
    pp1: Point,
    player: Entity,
    delta_x: int,
    delta_y: int,
) -> bool {
    if delta_x == 0 && delta_y == 0 {
        w1 == w0 && pp1 == pp0
    } else if player_ready(w0, player) && m.spec_in_bounds(
        w0.positions@[player.index as int]->Some_0.x + delta_x,
        w0.positions@[player.index as int]->Some_0.y + delta_y,
    ) {
        move_rel(w0, w1, m, pp0, pp1, player, delta_x, delta_y)
    } else {
        w1 == w0 && pp1 == pp0
    }
}

/// A trigger anchor for naming the intermediate states of one movement.
pub open spec fn movement_witness(wg: World, wx: World, ppx: Point) -> bool {
    true
}

/// What the free-movement stage does: when the player's own rate limiter
/// grants the move, the limiter records the time and one step per axis is
/// attempted, in x-then-y order; a denied or impossible gate leaves
/// everything as it was.
pub open spec fn movement_rel(
    w0: World,
    w1: World,
    m: GameMap,
    pp0: Point,
    pp1: Point,
    player: Entity,
    keys: KeysPressed,
    now_ms: u64,
) -> bool {
    let dx: int = (if keys.left { -1int } else { 0int }) + (if keys.right { 1int } else { 0int });
    let dy: int = (if keys.up { -1int } else { 0int }) + (if keys.down { 1int } else { 0int });
    let gate_open = w0.alive(player) && w0.speeds@[player.index as int] is Some
        && crate::movement_util::move_allowed(w0.speeds@[player.index as int]->Some_0, now_ms);
    if !gate_open {
        w1 == w0 && pp1 == pp0
    } else {
        exists|wg: World, wx: World, ppx: Point|
            {
                &&& #[trigger] movement_witness(wg, wx, ppx)
                &&& axis_rel(wg, wx, m, pp0, ppx, player, dx, 0)
                &&& wg.slots@ == w0.slots@
                &&& wg.speeds@ == w0.speeds@.update(
                    player.index as int,
                    Some(
                        crate::components::MovementSpeed {
                            last_move_time: Some(now_ms),
                            ..w0.speeds@[player.index as int]->Some_0
                        },
                    ),
                )
                &&& World::comps_eq_except_speeds(w0, wg)
                &&& axis_rel(wx, w1, m, ppx, pp1, player, 0, dy)
            }
    }
}

/// The pickup-key stage of input handling: when a registered press finds a
/// live player, `get_item`'s contract holds; otherwise nothing happens.
pub open spec fn grab_rel(
    w0: World,
    w1: World,
    l0: Seq<Seq<char>>,
    b: nat,
    l1: Seq<Seq<char>>,
    m: GameMap,
    player: Entity,
    player_pos: Point,
    fired: bool,
) -> bool {
    if fired && w0.alive(player) {
        &&& (w1.wf())
        &&& (w1.n() == w0.n())
        &&& (w1.slots@ == w0.slots@)
        &&& (b == b)
        &&& (got_item(
            w0,
            w1,
            l0,
            b,
            l1,
            m,
            player,
            player_pos,
        ))
        &&& (w1.positions@ == w0.positions@)
        &&& (w1.renderables@ == w0.renderables@)
        &&& (w1.names@ == w0.names@)
        &&& (w1.blockers@ == w0.blockers@)
        &&& (w1.items@ == w0.items@)
        &&& (w1.backpacks@ == w0.backpacks@)
        &&& (w1.healing@ == w0.healing@)
        &&& (w1.consumables@ == w0.consumables@)
        &&& (w1.use_intents@ == w0.use_intents@)
        &&& (w1.drop_intents@ == w0.drop_intents@)
        &&& (w1.speeds@ == w0.speeds@)
        &&& (w1.combat_stats@ == w0.combat_stats@)
        &&& (w1.suffering@ == w0.suffering@)
        &&& (w1.melee_intents@ == w0.melee_intents@)
        &&& (w1.ranged@ == w0.ranged@)
        &&& (w1.inflicts@ == w0.inflicts@)
        &&& (w1.players@ == w0.players@)
        &&& (w1.viewsheds@ == w0.viewsheds@)
        &&& (w1.monsters@ == w0.monsters@)
        &&& (w1.markers@ == w0.markers@)
        &&& (w1.helpers@ == w0.helpers@)
    } else {
        w1 == w0 && l1 == l0
    }
}

/// The key record after one frame: gated when held, released otherwise.
pub open spec fn key_frame(k: crate::keys_util::KeyPress, pressed: bool, now_ms: u64) -> crate::keys_util::KeyPress {
    if pressed {
        crate::keys_util::pressed_key(k, now_ms)
    } else {
        crate::keys_util::KeyPress { state: crate::keys_util::KeyState::RELEASED, ..k }
    }
}

/// Whether a key registers this frame.
pub open spec fn key_fires(k: crate::keys_util::KeyPress, pressed: bool, now_ms: u64) -> bool {
    pressed && crate::keys_util::press_allowed(k, now_ms)
}

/// An accepted escape press outside the inventory overlay requests a save.
pub open spec fn input_saves(c: crate::Client, keys: KeysPressed, now_ms: u64) -> bool {
    let i_reg = key_fires(c.key_i, keys.inventory, now_ms);
    let show1 = if i_reg {
        !c.show_inventory
    } else {
        c.show_inventory
    };
    key_fires(c.key_escape, keys.escape, now_ms) && !show1
}

/// The client after one frame of input: every key record advances by its
/// gate, the inventory flag toggles on an accepted inventory press, an
/// accepted escape press closes the overlay (or requests a save and leaves
/// the drop-toggle key unprocessed), and an accepted drop-toggle press
/// inside the overlay flips drop mode.
pub open spec fn client_frame(c: crate::Client, keys: KeysPressed, now_ms: u64) -> crate::Client {
    let key_e = key_frame(c.key_e, keys.pick_up, now_ms);
    let key_i = key_frame(c.key_i, keys.inventory, now_ms);
    let key_escape = key_frame(c.key_escape, keys.escape, now_ms);
    let i_reg = key_fires(c.key_i, keys.inventory, now_ms);
    let esc_reg = key_fires(c.key_escape, keys.escape, now_ms);
    let show1 = if i_reg {
        !c.show_inventory
    } else {
        c.show_inventory
    };
    if esc_reg && !show1 {
        crate::Client { key_e, key_i, key_escape, show_inventory: show1, ..c }
    } else {
        let show2 = if esc_reg {
            false
        } else {
            show1
        };
        let drop2 = if esc_reg {
            false
        } else {
            c.drop_inventory
        };
        let key_g = key_frame(c.key_g, keys.drop_toggle, now_ms);
        let g_reg = key_fires(c.key_g, keys.drop_toggle, now_ms);
        let drop3 = if g_reg && show2 {
            !drop2
        } else {
            drop2
        };
        crate::Client {
            key_e,
            key_i,
            key_escape,
            key_g,
            show_inventory: show2,
            drop_inventory: drop3,
        }
    }
}

} // verus!
