//! Queries and intent entry points behind the cosmetic user interface. The
//! drawing itself is the front end's business; what the overlay shows and
//! what a selection does to the store is decided here.

use vstd::prelude::*;

use crate::components::Consumable;
use crate::components::WantsToDropItem;
use crate::components::WantsToUseItem;
use crate::entity::Entity;
use crate::entity::SlotState;
use crate::map::GameMap;
use crate::world::World;

verus! {

/// The player's inventory below slot `upto`: present, named items held in a
/// backpack owned by the player, in slot order.
pub open spec fn inventory_of(w: World, player: Entity, upto: int) -> Seq<Entity>
    decreases upto,
{
    if upto <= 0 {
        Seq::empty()
    } else if in_player_backpack(w, player, upto - 1) {
        inventory_of(w, player, upto - 1).push(w.handle(upto - 1))
    } else {
        inventory_of(w, player, upto - 1)
    }
}

/// Slot `i` holds a named thing in the player's backpack.
pub open spec fn in_player_backpack(w: World, player: Entity, i: int) -> bool {
    &&& w.present_at(i)
    &&& w.names@[i] is Some
    &&& match w.backpacks@[i] {
        Some(b) => b.owner == player,
        None => false,
    }
}

/// Lists the player's inventory for the overlay, in slot order.
pub fn player_inventory(w: &World, player: Entity) -> (out: Vec<Entity>)
    requires
        w.wf(),
    ensures
        out@ == inventory_of(*w, player, w.n()),
{
    let mut out: Vec<Entity> = Vec::new();
    let n = w.slots.len();
    let mut i: usize = 0;
    while i < n
        invariant
            w.wf(),
            n == w.n(),
            i <= n,
            out@ == inventory_of(*w, player, i as int),
        decreases n - i,
    {
        let slot = w.slots[i];
        if !matches!(slot.state, SlotState::Free) {
            let has_name = match w.names.get(i) {
                Some(_) => true,
                None => false,
            };
            let owned = match w.backpacks.get(i) {
                Some(b) => b.owner.index == player.index && b.owner.gen == player.gen,
                None => false,
            };
            if has_name && owned {
                out.push(Entity { index: i, gen: slot.gen });
            }
        }
        i = i + 1;
    }
    out
}

/// Acts on an inventory selection: in drop mode the item gets a drop intent;
/// otherwise a consumable item gets a use intent and anything else is left
/// alone, as the overlay only drinks consumables.
pub fn choose_inventory_item(w: &mut World, player: Entity, item: Entity, drop_mode: bool)
    requires
        old(w).wf(),
        old(w).alive(player),
        item.index < old(w).n(),
    ensures
        final(w).wf(),
        final(w).slots@ == old(w).slots@,
        drop_mode ==> final(w).drop_intents@ == old(w).drop_intents@.update(
            player.index as int,
            Some(WantsToDropItem { item }),
        ) && final(w).use_intents@ == old(w).use_intents@,
        !drop_mode && old(w).consumables@[item.index as int] is Some ==> final(w).use_intents@
            == old(w).use_intents@.update(player.index as int, Some(WantsToUseItem { item }))
            && final(w).drop_intents@ == old(w).drop_intents@,
        !drop_mode && old(w).consumables@[item.index as int] is None ==> *final(w) == *old(w),
        final(w).positions@ == old(w).positions@,
        final(w).backpacks@ == old(w).backpacks@,
        final(w).names@ == old(w).names@,
        final(w).combat_stats@ == old(w).combat_stats@,
        final(w).melee_intents@ == old(w).melee_intents@,
        final(w).pickup_intents@ == old(w).pickup_intents@,
        final(w).renderables@ == old(w).renderables@,
        final(w).blockers@ == old(w).blockers@,
        final(w).items@ == old(w).items@,
        final(w).healing@ == old(w).healing@,
        final(w).consumables@ == old(w).consumables@,
        final(w).speeds@ == old(w).speeds@,
        final(w).suffering@ == old(w).suffering@,
        final(w).ranged@ == old(w).ranged@,
        final(w).inflicts@ == old(w).inflicts@,
        final(w).players@ == old(w).players@,
        final(w).viewsheds@ == old(w).viewsheds@,
        final(w).monsters@ == old(w).monsters@,
        final(w).markers@ == old(w).markers@,
        final(w).helpers@ == old(w).helpers@,
    {
    let ghost w0 = *w;
    if drop_mode {
        w.drop_intents.set(player.index, Some(WantsToDropItem { item }));
        proof {
            assert forall|j: int|
                0 <= j < w.n() && w.slots@[j].state is Free implies w.no_comps_at(j) by {
                assert(w0.no_comps_at(j));
            }
        }
    } else {
        let is_consumable = match w.consumables.get(item.index) {
            Some(_) => true,
            None => false,
        };
        if is_consumable {
            w.use_intents.set(player.index, Some(WantsToUseItem { item }));
            proof {
                assert forall|j: int|
                    0 <= j < w.n() && w.slots@[j].state is Free implies w.no_comps_at(j) by {
                    assert(w0.no_comps_at(j));
                }
            }
        }
    }
}

/// The tooltip contents at a cell: the names of the present entities that
/// stand there, when the cell is visible; in slot order.
pub open spec fn tooltip_at(w: World, m: GameMap, x: int, y: int, upto: int) -> Seq<Seq<char>>
    decreases upto,
{
    if upto <= 0 {
        Seq::empty()
    } else if named_at(w, upto - 1, x, y) {
        tooltip_at(w, m, x, y, upto - 1).push(w.names@[upto - 1]->Some_0.name@)
    } else {
        tooltip_at(w, m, x, y, upto - 1)
    }
}

/// Slot `i` is present, named and positioned on cell `(x, y)`.
pub open spec fn named_at(w: World, i: int, x: int, y: int) -> bool {
    &&& w.present_at(i)
    &&& w.names@[i] is Some
    &&& match w.positions@[i] {
        Some(p) => p.x == x && p.y == y,
        None => false,
    }
}

/// The names shown in a tooltip over cell `(x, y)`: empty unless the cell is
/// on the grid and currently visible.
pub fn tooltip_names(w: &World, map: &GameMap, x: i32, y: i32) -> (out: Vec<String>)
    requires
        w.wf(),
        map.wf(),
    ensures
        map.spec_in_bounds(x as int, y as int) && map.visible_tiles@[map.spec_idx(
            x as int,
            y as int,
        )] ==> out@.len() == tooltip_at(*w, *map, x as int, y as int, w.n()).len() && (forall|
            k: int,
        |
            0 <= k < out@.len() ==> out@[k]@ == tooltip_at(*w, *map, x as int, y as int, w.n())[k]),
        !(map.spec_in_bounds(x as int, y as int) && map.visible_tiles@[map.spec_idx(
            x as int,
            y as int,
        )]) ==> out@.len() == 0,
{
    let mut out: Vec<String> = Vec::new();
    if !map.in_bounds(x, y) {
        return out;
    }
    let idx = map.xy_idx(x, y);
    if !map.visible_tiles[idx] {
        return out;
    }
    let n = w.slots.len();
    let mut i: usize = 0;
    while i < n
        invariant
            w.wf(),
            map.wf(),
            n == w.n(),
            i <= n,
            out@.len() == tooltip_at(*w, *map, x as int, y as int, i as int).len(),
            forall|k: int|
                0 <= k < out@.len() ==> out@[k]@ == tooltip_at(
                    *w,
                    *map,
                    x as int,
                    y as int,
                    i as int,
                )[k],
        decreases n - i,
    {
        let slot = w.slots[i];
        if !matches!(slot.state, SlotState::Free) {
            let here = match w.positions.get(i) {
                Some(p) => p.x == x && p.y == y,
                None => false,
            };
            if here {
                if let Some(nm) = w.names.get(i) {
                    out.push(nm.name.clone());
                }
            }
        }
        i = i + 1;
    }
    out
}

/// The single player-tagged entity, when one is present.
pub fn find_player(w: &World) -> (r: Option<Entity>)
    requires
        w.wf(),
    ensures
        match r {
            Some(e) => w.valid(e) && w.players@[e.index as int] is Some,
            None => forall|i: int|
                0 <= i < w.n() && w.present_at(i) ==> w.players@[i] is None,
        },
{
    let n = w.slots.len();
    let mut i: usize = 0;
    while i < n
        invariant
            w.wf(),
            n == w.n(),
            i <= n,
            forall|j: int| 0 <= j < i && w.present_at(j) ==> w.players@[j] is None,
        decreases n - i,
    {
        let slot = w.slots[i];
        if !matches!(slot.state, SlotState::Free) {
            if let Some(_) = w.players.get(i) {
                return Some(Entity { index: i, gen: slot.gen });
            }
        }
        i = i + 1;
    }
    None
}

} // verus!
