//! The component set: typed data records attached to entities. Entities are
//! defined purely by the components they carry.

use vstd::prelude::*;

use crate::entity::Entity;
use crate::storage::Storage;

verus! {

/// A grid coordinate.
#[derive(Clone, Copy, PartialEq, Eq, Structural, Debug)]
pub struct Point {
    pub x: i32,
    pub y: i32,
}

/// Grid cell an entity stands on. Mutually exclusive with `InBackpack` for
/// items: an item is either on the map or held, never both.
#[derive(Clone, Copy, PartialEq, Eq, Structural, Debug)]
pub struct Position {
    pub x: i32,
    pub y: i32,
}

/// An 8-bit-per-channel color; the front end converts it to whatever its
/// renderer wants.
#[derive(Clone, Copy, PartialEq, Eq, Structural, Debug)]
pub struct Color {
    pub r: u8,
    pub g: u8,
    pub b: u8,
}

/// Presentation only: glyph and colors, with higher `render_order` drawn on
/// top.
#[derive(Clone, Copy, PartialEq, Eq, Structural, Debug)]
pub struct Renderable {
    pub glyph: u16,
    pub fg: Color,
    pub bg: Color,
    pub render_order: i32,
}

#[derive(Clone, Debug)]
pub struct Name {
    pub name: String,
}

impl Name {
    /// A field-preserving copy (`String` cloning keeps the contents).
    pub fn duplicate(&self) -> (r: Name)
        ensures
            r == *self,
    {
        Name { name: self.name.clone() }
    }
}

/// Tag: the entity occupies and blocks its cell for movement.
#[derive(Clone, Copy, PartialEq, Eq, Structural, Debug)]
pub struct BlocksTile {}

/// Tag: the entity can be picked up.
#[derive(Clone, Copy, PartialEq, Eq, Structural, Debug)]
pub struct Item {}

/// Ownership edge from an item to its holder.
#[derive(Clone, Copy, PartialEq, Eq, Structural, Debug)]
pub struct InBackpack {
    pub owner: Entity,
}

/// Intent: `collected_by` wants to pick `item` up. Single-turn lifetime.
#[derive(Clone, Copy, PartialEq, Eq, Structural, Debug)]
pub struct WantsToPickupItem {
    pub collected_by: Entity,
    pub item: Entity,
}

#[derive(Clone, Copy, PartialEq, Eq, Structural, Debug)]
pub struct ProvidesHealing {
    pub heal_amount: i32,
}

/// Tag: the item is destroyed by use.
#[derive(Clone, Copy, PartialEq, Eq, Structural, Debug)]
pub struct Consumable {}

/// Intent: the carrying entity wants to use `item`. Single-turn lifetime.
#[derive(Clone, Copy, PartialEq, Eq, Structural, Debug)]
pub struct WantsToUseItem {
    pub item: Entity,
}

/// Intent: the carrying entity wants to drop `item`. Single-turn lifetime.
#[derive(Clone, Copy, PartialEq, Eq, Structural, Debug)]
pub struct WantsToDropItem {
    pub item: Entity,
}

/// Rate limiter gating how often an entity may act, in wall-clock
/// milliseconds supplied by the caller.
#[derive(Clone, Copy, PartialEq, Eq, Structural, Debug)]
pub struct MovementSpeed {
    pub min_delay_ms: u64,
    pub last_move_time: Option<u64>,
}

#[derive(Clone, Copy, PartialEq, Eq, Structural, Debug)]
pub struct CombatStats {
    pub max_hp: i32,
    pub hp: i32,
    pub defense: i32,
    pub power: i32,
}

/// Intent: the carrying entity wants to melee `target`. Single-turn lifetime.
#[derive(Clone, Copy, PartialEq, Eq, Structural, Debug)]
pub struct WantsToMelee {
    pub target: Entity,
}

#[derive(Clone, Copy, PartialEq, Eq, Structural, Debug)]
pub struct Ranged {
    pub range: i32,
}

#[derive(Clone, Copy, PartialEq, Eq, Structural, Debug)]
pub struct InflictsDamage {
    pub damage: i32,
}

/// Accumulator of damage taken this turn; multiple hits append, and the
/// damage-resolution pass sums and clears it. Always empty at turn start.
#[derive(Clone, Debug)]
pub struct SufferDamage {
    pub amount: Vec<i32>,
}

impl SufferDamage {
    /// Records one more hit against `victim`: appends to the accumulator if
    /// one is present, else starts one with this single amount.
    pub fn new_damage(store: &mut Storage<SufferDamage>, victim: Entity, amount: i32)
        requires
            victim.index < old(store)@.len(),
        ensures
            final(store)@.len() == old(store)@.len(),
            forall|j: int|
                0 <= j < old(store)@.len() && j != victim.index ==> final(store)@[j]
                    == old(store)@[j],
            suffer_amounts(final(store)@[victim.index as int]) == suffer_amounts(
                old(store)@[victim.index as int],
            ).push(amount),
            final(store)@[victim.index as int] is Some,
    {
        match store.entry_mut(victim.index) {
            Some(suffering) => {
                suffering.amount.push(amount);
            }
            e => {
                let mut amt: Vec<i32> = Vec::new();
                amt.push(amount);
                *e = Some(SufferDamage { amount: amt });
            }
        }
    }
}

/// The pending amounts of a damage accumulator cell: empty when absent.
pub open spec fn suffer_amounts(s: Option<SufferDamage>) -> Seq<i32> {
    match s {
        Some(sd) => sd.amount@,
        None => Seq::empty(),
    }
}

/// Tag: the single player-controlled entity.
#[derive(Clone, Copy, PartialEq, Eq, Structural, Debug)]
pub struct Player {}

/// Cached field of view: the set of currently visible cells plus a dirty
/// flag forcing recomputation. Owned by the visibility collaborator and
/// invalidated by movement.
#[derive(Clone, Debug)]
pub struct Viewshed {
    pub visible_tiles: Vec<Point>,
    pub range: i32,
    pub dirty: bool,
}

#[derive(Clone, Copy, PartialEq, Eq, Structural, Debug)]
pub struct Monster {}

/// Persistence marker: tags an entity as meant to be saved.
#[derive(Clone, Copy, PartialEq, Eq, Structural, Debug)]
pub struct SerializeMe {}

/// Persistence helper: an ephemeral component wrapping a deep copy of the map
/// singleton so that the save gateway can write it like any other component.
pub struct SerializationHelper {
    pub map: crate::map::GameMap,
}

} // verus!
