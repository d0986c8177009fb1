//! The persistence gateway. Saving tags every entity meant to persist,
//! assigns each a stable marker id, and writes one table per component type
//! keyed by those ids; every cross-entity reference inside a component is
//! rewritten to the target's marker id, and a reference to an unmarked or
//! stale entity drops that record. An ephemeral helper entity wraps a deep
//! copy of the map singleton and is destroyed (deferred) after the save.
//! Loading re-creates fresh entities, one per marker id, and rewrites every
//! reference through the id-to-handle map; an unknown id drops the reference.

use vstd::prelude::*;

use crate::components::BlocksTile;
use crate::components::CombatStats;
use crate::components::Consumable;
use crate::components::InBackpack;
use crate::components::InflictsDamage;
use crate::components::Item;
use crate::components::Monster;
use crate::components::Name;
use crate::components::Player;
use crate::components::Point;
use crate::components::Position;
use crate::components::ProvidesHealing;
use crate::components::Ranged;
use crate::components::Renderable;
use crate::components::SerializationHelper;
use crate::components::SerializeMe;
use crate::components::SufferDamage;
use crate::components::Viewshed;
use crate::components::WantsToDropItem;
use crate::components::WantsToMelee;
use crate::components::WantsToPickupItem;
use crate::components::WantsToUseItem;
use crate::entity::Entity;
use crate::entity::SlotState;
use crate::map::GameMap;
use crate::world::World;

verus! {

/// The stable external representation: one table per persisted component
/// type, keyed by marker id, plus the helper table embedding the map.
pub struct SaveData {
    pub positions: Vec<(u64, Position)>,
    pub renderables: Vec<(u64, Renderable)>,
    pub names: Vec<(u64, Name)>,
    pub viewsheds: Vec<(u64, Viewshed)>,
    pub combat_stats: Vec<(u64, CombatStats)>,
    pub suffering: Vec<(u64, SufferDamage)>,
    pub ranged: Vec<(u64, Ranged)>,
    pub inflicts: Vec<(u64, InflictsDamage)>,
    pub healing: Vec<(u64, ProvidesHealing)>,
    pub players: Vec<u64>,
    pub monsters: Vec<u64>,
    pub blockers: Vec<u64>,
    pub items: Vec<u64>,
    pub consumables: Vec<u64>,
    pub backpacks: Vec<(u64, u64)>,
    pub melee_intents: Vec<(u64, u64)>,
    pub use_intents: Vec<(u64, u64)>,
    pub drop_intents: Vec<(u64, u64)>,
    pub pickup_intents: Vec<(u64, u64, u64)>,
    pub helpers: Vec<(u64, GameMap)>,
}

/// The entity at slot `i` is present and tagged for persistence.
pub open spec fn marked(w: World, i: int) -> bool {
    w.present_at(i) && w.markers@[i] is Some
}

/// How many marked slots lie below `upto`: the marker id of the next one.
pub open spec fn mark_count(w: World, upto: int) -> int
    decreases upto,
{
    if upto <= 0 {
        0
    } else if marked(w, upto - 1) {
        mark_count(w, upto - 1) + 1
    } else {
        mark_count(w, upto - 1)
    }
}

/// A reference that survives the save: the handle resolves to a live slot
/// that is itself marked.
pub open spec fn ref_ok(w: World, e: Entity) -> bool {
    w.valid(e) && marked(w, e.index as int)
}

/// The marker id a reference is rewritten to.
pub open spec fn ref_id(w: World, e: Entity) -> int {
    mark_count(w, e.index as int)
}

proof fn lemma_mark_count_bounds(w: World, upto: int)
    requires
        0 <= upto,
    ensures
        0 <= mark_count(w, upto) <= upto,
    decreases upto,
{
    if upto > 0 {
        lemma_mark_count_bounds(w, upto - 1);
    }
}

proof fn lemma_mark_count_mono(w: World, a: int, b: int)
    requires
        0 <= a <= b,
    ensures
        mark_count(w, a) <= mark_count(w, b),
    decreases b,
{
    if a < b {
        lemma_mark_count_mono(w, a, b - 1);
    }
}

/// Marked slots get distinct ids: the id of a marked slot is strictly below
/// the id of any later marked slot.
pub proof fn lemma_mark_id_distinct(w: World, i: int, j: int)
    requires
        0 <= i < j,
        marked(w, i),
    ensures
        mark_count(w, i) < mark_count(w, j),
{
    lemma_mark_count_mono(w, i + 1, j);
}

/// The saved positions table over the slots below `i`.
pub open spec fn saved_positions(w: World, i: int) -> Seq<(u64, Position)>
    decreases i,
{
    if i <= 0 {
        Seq::empty()
    } else if marked(w, i - 1) && w.positions@[i - 1] is Some {
        saved_positions(w, i - 1) + seq![(mark_count(w, i - 1) as u64, w.positions@[i - 1]->Some_0)]
    } else {
        saved_positions(w, i - 1)
    }
}
/// The saved renderables table over the slots below `i`.
pub open spec fn saved_renderables(w: World, i: int) -> Seq<(u64, Renderable)>
    decreases i,
{
    if i <= 0 {
        Seq::empty()
    } else if marked(w, i - 1) && w.renderables@[i - 1] is Some {
        saved_renderables(w, i - 1) + seq![(mark_count(w, i - 1) as u64, w.renderables@[i - 1]->Some_0)]
    } else {
        saved_renderables(w, i - 1)
    }
}
/// The saved names table over the slots below `i`.
pub open spec fn saved_names(w: World, i: int) -> Seq<(u64, Name)>
    decreases i,
{
    if i <= 0 {
        Seq::empty()
    } else if marked(w, i - 1) && w.names@[i - 1] is Some {
        saved_names(w, i - 1) + seq![(mark_count(w, i - 1) as u64, w.names@[i - 1]->Some_0)]
    } else {
        saved_names(w, i - 1)
    }
}
/// The saved viewsheds table over the slots below `i`.
pub open spec fn saved_viewsheds(w: World, i: int) -> Seq<(u64, Viewshed)>
    decreases i,
{
    if i <= 0 {
        Seq::empty()
    } else if marked(w, i - 1) && w.viewsheds@[i - 1] is Some {
        saved_viewsheds(w, i - 1) + seq![(mark_count(w, i - 1) as u64, w.viewsheds@[i - 1]->Some_0)]
    } else {
        saved_viewsheds(w, i - 1)
    }
}
/// The saved combat_stats table over the slots below `i`.
pub open spec fn saved_combat_stats(w: World, i: int) -> Seq<(u64, CombatStats)>
    decreases i,
{
    if i <= 0 {
        Seq::empty()
    } else if marked(w, i - 1) && w.combat_stats@[i - 1] is Some {
        saved_combat_stats(w, i - 1) + seq![(mark_count(w, i - 1) as u64, w.combat_stats@[i - 1]->Some_0)]
    } else {
        saved_combat_stats(w, i - 1)
    }
}
/// The saved suffering table over the slots below `i`.
pub open spec fn saved_suffering(w: World, i: int) -> Seq<(u64, SufferDamage)>
    decreases i,
{
    if i <= 0 {
        Seq::empty()
    } else if marked(w, i - 1) && w.suffering@[i - 1] is Some {
        saved_suffering(w, i - 1) + seq![(mark_count(w, i - 1) as u64, w.suffering@[i - 1]->Some_0)]
    } else {
        saved_suffering(w, i - 1)
    }
}
/// The saved ranged table over the slots below `i`.
pub open spec fn saved_ranged(w: World, i: int) -> Seq<(u64, Ranged)>
    decreases i,
{
    if i <= 0 {
        Seq::empty()
    } else if marked(w, i - 1) && w.ranged@[i - 1] is Some {
        saved_ranged(w, i - 1) + seq![(mark_count(w, i - 1) as u64, w.ranged@[i - 1]->Some_0)]
    } else {
        saved_ranged(w, i - 1)
    }
}
/// The saved inflicts table over the slots below `i`.
pub open spec fn saved_inflicts(w: World, i: int) -> Seq<(u64, InflictsDamage)>
    decreases i,
{
    if i <= 0 {
        Seq::empty()
    } else if marked(w, i - 1) && w.inflicts@[i - 1] is Some {
        saved_inflicts(w, i - 1) + seq![(mark_count(w, i - 1) as u64, w.inflicts@[i - 1]->Some_0)]
    } else {
        saved_inflicts(w, i - 1)
    }
}
/// The saved healing table over the slots below `i`.
pub open spec fn saved_healing(w: World, i: int) -> Seq<(u64, ProvidesHealing)>
    decreases i,
{
    if i <= 0 {
        Seq::empty()
    } else if marked(w, i - 1) && w.healing@[i - 1] is Some {
        saved_healing(w, i - 1) + seq![(mark_count(w, i - 1) as u64, w.healing@[i - 1]->Some_0)]
    } else {
        saved_healing(w, i - 1)
    }
}
/// The saved players table over the slots below `i`.
pub open spec fn saved_players(w: World, i: int) -> Seq<u64>
    decreases i,
{
    if i <= 0 {
        Seq::empty()
    } else if marked(w, i - 1) && w.players@[i - 1] is Some {
        saved_players(w, i - 1) + seq![mark_count(w, i - 1) as u64]
    } else {
        saved_players(w, i - 1)
    }
}
/// The saved monsters table over the slots below `i`.
pub open spec fn saved_monsters(w: World, i: int) -> Seq<u64>
    decreases i,
{
    if i <= 0 {
        Seq::empty()
    } else if marked(w, i - 1) && w.monsters@[i - 1] is Some {
        saved_monsters(w, i - 1) + seq![mark_count(w, i - 1) as u64]
    } else {
        saved_monsters(w, i - 1)
    }
}
/// The saved blockers table over the slots below `i`.
pub open spec fn saved_blockers(w: World, i: int) -> Seq<u64>
    decreases i,
{
    if i <= 0 {
        Seq::empty()
    } else if marked(w, i - 1) && w.blockers@[i - 1] is Some {
        saved_blockers(w, i - 1) + seq![mark_count(w, i - 1) as u64]
    } else {
        saved_blockers(w, i - 1)
    }
}
/// The saved items table over the slots below `i`.
pub open spec fn saved_items(w: World, i: int) -> Seq<u64>
    decreases i,
{
    if i <= 0 {
        Seq::empty()
    } else if marked(w, i - 1) && w.items@[i - 1] is Some {
        saved_items(w, i - 1) + seq![mark_count(w, i - 1) as u64]
    } else {
        saved_items(w, i - 1)
    }
}
/// The saved consumables table over the slots below `i`.
pub open spec fn saved_consumables(w: World, i: int) -> Seq<u64>
    decreases i,
{
    if i <= 0 {
        Seq::empty()
    } else if marked(w, i - 1) && w.consumables@[i - 1] is Some {
        saved_consumables(w, i - 1) + seq![mark_count(w, i - 1) as u64]
    } else {
        saved_consumables(w, i - 1)
    }
}
/// The saved backpacks table: records whose reference survives, rewritten to
/// marker ids.
pub open spec fn saved_backpacks(w: World, i: int) -> Seq<(u64, u64)>
    decreases i,
{
    if i <= 0 {
        Seq::empty()
    } else if marked(w, i - 1) && w.backpacks@[i - 1] is Some && ref_ok(
        w,
        w.backpacks@[i - 1]->Some_0.owner,
    ) {
        saved_backpacks(w, i - 1) + seq![
            (mark_count(w, i - 1) as u64, ref_id(w, w.backpacks@[i - 1]->Some_0.owner) as u64),
        ]
    } else {
        saved_backpacks(w, i - 1)
    }
}
/// The saved melee_intents table: records whose reference survives, rewritten to
/// marker ids.
pub open spec fn saved_melee_intents(w: World, i: int) -> Seq<(u64, u64)>
    decreases i,
{
    if i <= 0 {
        Seq::empty()
    } else if marked(w, i - 1) && w.melee_intents@[i - 1] is Some && ref_ok(
        w,
        w.melee_intents@[i - 1]->Some_0.target,
    ) {
        saved_melee_intents(w, i - 1) + seq![
            (mark_count(w, i - 1) as u64, ref_id(w, w.melee_intents@[i - 1]->Some_0.target) as u64),
        ]
    } else {
        saved_melee_intents(w, i - 1)
    }
}
/// The saved use_intents table: records whose reference survives, rewritten to
/// marker ids.
pub open spec fn saved_use_intents(w: World, i: int) -> Seq<(u64, u64)>
    decreases i,
{
    if i <= 0 {
        Seq::empty()
    } else if marked(w, i - 1) && w.use_intents@[i - 1] is Some && ref_ok(
        w,
        w.use_intents@[i - 1]->Some_0.item,
    ) {
        saved_use_intents(w, i - 1) + seq![
            (mark_count(w, i - 1) as u64, ref_id(w, w.use_intents@[i - 1]->Some_0.item) as u64),
        ]
    } else {
        saved_use_intents(w, i - 1)
    }
}
/// The saved drop_intents table: records whose reference survives, rewritten to
/// marker ids.
pub open spec fn saved_drop_intents(w: World, i: int) -> Seq<(u64, u64)>
    decreases i,
{
    if i <= 0 {
        Seq::empty()
    } else if marked(w, i - 1) && w.drop_intents@[i - 1] is Some && ref_ok(
        w,
        w.drop_intents@[i - 1]->Some_0.item,
    ) {
        saved_drop_intents(w, i - 1) + seq![
            (mark_count(w, i - 1) as u64, ref_id(w, w.drop_intents@[i - 1]->Some_0.item) as u64),
        ]
    } else {
        saved_drop_intents(w, i - 1)
    }
}
/// The saved pickup table: both references must survive.
pub open spec fn saved_pickup_intents(w: World, i: int) -> Seq<(u64, u64, u64)>
    decreases i,
{
    if i <= 0 {
        Seq::empty()
    } else if marked(w, i - 1) && w.pickup_intents@[i - 1] is Some && ref_ok(
        w,
        w.pickup_intents@[i - 1]->Some_0.collected_by,
    ) && ref_ok(w, w.pickup_intents@[i - 1]->Some_0.item) {
        saved_pickup_intents(w, i - 1) + seq![
            (
                mark_count(w, i - 1) as u64,
                ref_id(w, w.pickup_intents@[i - 1]->Some_0.collected_by) as u64,
                ref_id(w, w.pickup_intents@[i - 1]->Some_0.item) as u64,
            ),
        ]
    } else {
        saved_pickup_intents(w, i - 1)
    }
}
fn build_positions(w: &World, ids: &Vec<Option<u64>>) -> (out: Vec<(u64, Position)>)
    requires
        w.wf(),
        ids_ok(*w, ids@),
    ensures
        out@ == saved_positions(*w, w.n()),
{
    let mut out: Vec<(u64, Position)> = Vec::new();
    let n = w.slots.len();
    let mut i: usize = 0;
    while i < n
        invariant
            w.wf(),
            ids_ok(*w, ids@),
            n == w.n(),
            i <= n,
            out@ == saved_positions(*w, i as int),
        decreases n - i,
    {
        let slot = w.slots[i];
        let is_marked = !matches!(slot.state, SlotState::Free) && (match w.markers.get(i) {
            Some(_) => true,
            None => false,
        });
        if is_marked {
            if let Some(v) = w.positions.get(i) {
                let id = ids_at(ids, i);
                let rec = *v;
                out.push((id, rec));
            }
        }
        i = i + 1;
    }
    out
}
fn build_renderables(w: &World, ids: &Vec<Option<u64>>) -> (out: Vec<(u64, Renderable)>)
    requires
        w.wf(),
        ids_ok(*w, ids@),
    ensures
        out@ == saved_renderables(*w, w.n()),
{
    let mut out: Vec<(u64, Renderable)> = Vec::new();
    let n = w.slots.len();
    let mut i: usize = 0;
    while i < n
        invariant
            w.wf(),
            ids_ok(*w, ids@),
            n == w.n(),
            i <= n,
            out@ == saved_renderables(*w, i as int),
        decreases n - i,
    {
        let slot = w.slots[i];
        let is_marked = !matches!(slot.state, SlotState::Free) && (match w.markers.get(i) {
            Some(_) => true,
            None => false,
        });
        if is_marked {
            if let Some(v) = w.renderables.get(i) {
                let id = ids_at(ids, i);
                let rec = *v;
                out.push((id, rec));
            }
        }
        i = i + 1;
    }
    out
}
fn build_names(w: &World, ids: &Vec<Option<u64>>) -> (out: Vec<(u64, Name)>)
    requires
        w.wf(),
        ids_ok(*w, ids@),
    ensures
        out@ == saved_names(*w, w.n()),
{
    let mut out: Vec<(u64, Name)> = Vec::new();
    let n = w.slots.len();
    let mut i: usize = 0;
    while i < n
        invariant
            w.wf(),
            ids_ok(*w, ids@),
            n == w.n(),
            i <= n,
            out@ == saved_names(*w, i as int),
        decreases n - i,
    {
        let slot = w.slots[i];
        let is_marked = !matches!(slot.state, SlotState::Free) && (match w.markers.get(i) {
            Some(_) => true,
            None => false,
        });
        if is_marked {
            if let Some(v) = w.names.get(i) {
                let id = ids_at(ids, i);
                let rec = v.duplicate();
                out.push((id, rec));
            }
        }
        i = i + 1;
    }
    out
}
/// The mathematical contents of a viewshed table row.
pub open spec fn viewshed_rows(s: Seq<(u64, Viewshed)>) -> Seq<(u64, Seq<Point>, i32, bool)> {
    s.map(|k: int, r: (u64, Viewshed)| (r.0, r.1.visible_tiles@, r.1.range, r.1.dirty))
}

/// Same ids and field-preserving copies of the viewsheds.
pub open spec fn viewshed_rows_congruent(a: Seq<(u64, Viewshed)>, b: Seq<(u64, Viewshed)>) -> bool {
    viewshed_rows(a) == viewshed_rows(b)
}

fn build_viewsheds(w: &World, ids: &Vec<Option<u64>>) -> (out: Vec<(u64, Viewshed)>)
    requires
        w.wf(),
        ids_ok(*w, ids@),
    ensures
        viewshed_rows_congruent(out@, saved_viewsheds(*w, w.n())),
{
    let mut out: Vec<(u64, Viewshed)> = Vec::new();
    let n = w.slots.len();
    let mut i: usize = 0;
    while i < n
        invariant
            w.wf(),
            ids_ok(*w, ids@),
            n == w.n(),
            i <= n,
            viewshed_rows_congruent(out@, saved_viewsheds(*w, i as int)),
        decreases n - i,
    {
        let slot = w.slots[i];
        let is_marked = !matches!(slot.state, SlotState::Free) && (match w.markers.get(i) {
            Some(_) => true,
            None => false,
        });
        if is_marked {
            if let Some(v) = w.viewsheds.get(i) {
                let id = ids_at(ids, i);
                let ghost prev = out@;
                let rec = Viewshed { visible_tiles: crate::util::copy_vec(&v.visible_tiles), range: v.range, dirty: v.dirty };
                out.push((id, rec));
                proof {
                    lemma_mark_count_bounds(*w, i as int);
                    let sv = saved_viewsheds(*w, i + 1);
                    assert(sv =~= saved_viewsheds(*w, i as int).push(
                        (mark_count(*w, i as int) as u64, w.viewsheds@[i as int]->Some_0),
                    ));
                    assert(viewshed_rows(prev).len() == prev.len());
                    assert(viewshed_rows(saved_viewsheds(*w, i as int)).len() == saved_viewsheds(
                        *w,
                        i as int,
                    ).len());
                    assert(prev.len() == saved_viewsheds(*w, i as int).len());
                    assert(viewshed_rows(out@).len() == out@.len());
                    assert(viewshed_rows(sv).len() == sv.len());
                    assert(viewshed_rows(out@).len() == viewshed_rows(sv).len());
                    assert(viewshed_rows(out@) =~= viewshed_rows(sv)) by {
                        assert forall|k: int| 0 <= k < out@.len() implies viewshed_rows(out@)[k]
                            == viewshed_rows(sv)[k] by {
                            assert(viewshed_rows(out@)[k] == (out@[k].0, out@[k].1.visible_tiles@,
                            out@[k].1.range, out@[k].1.dirty));
                            assert(viewshed_rows(sv)[k] == (sv[k].0, sv[k].1.visible_tiles@,
                            sv[k].1.range, sv[k].1.dirty));
                            if k < out@.len() - 1 {
                                assert(out@[k] == prev[k]);
                                assert(sv[k] == saved_viewsheds(*w, i as int)[k]);
                                assert(viewshed_rows(prev)[k] == viewshed_rows(
                                    saved_viewsheds(*w, i as int),
                                )[k]);
                                assert(viewshed_rows(prev)[k] == (prev[k].0,
                                prev[k].1.visible_tiles@, prev[k].1.range, prev[k].1.dirty));
                                assert(viewshed_rows(saved_viewsheds(*w, i as int))[k] == (
                                saved_viewsheds(*w, i as int)[k].0,
                                saved_viewsheds(*w, i as int)[k].1.visible_tiles@,
                                saved_viewsheds(*w, i as int)[k].1.range,
                                saved_viewsheds(*w, i as int)[k].1.dirty,
                                ));
                            } else {
                                assert(out@[k] == (id, rec));
                                assert(sv[k] == (mark_count(*w, i as int) as u64,
                                w.viewsheds@[i as int]->Some_0));
                            }
                        }
                    }
                }
            }
        }
        i = i + 1;
    }
    out
}
fn build_combat_stats(w: &World, ids: &Vec<Option<u64>>) -> (out: Vec<(u64, CombatStats)>)
    requires
        w.wf(),
        ids_ok(*w, ids@),
    ensures
        out@ == saved_combat_stats(*w, w.n()),
{
    let mut out: Vec<(u64, CombatStats)> = Vec::new();
    let n = w.slots.len();
    let mut i: usize = 0;
    while i < n
        invariant
            w.wf(),
            ids_ok(*w, ids@),
            n == w.n(),
            i <= n,
            out@ == saved_combat_stats(*w, i as int),
        decreases n - i,
    {
        let slot = w.slots[i];
        let is_marked = !matches!(slot.state, SlotState::Free) && (match w.markers.get(i) {
            Some(_) => true,
            None => false,
        });
        if is_marked {
            if let Some(v) = w.combat_stats.get(i) {
                let id = ids_at(ids, i);
                let rec = *v;
                out.push((id, rec));
            }
        }
        i = i + 1;
    }
    out
}
/// The mathematical contents of a damage-accumulator table row.
pub open spec fn suffering_rows(s: Seq<(u64, SufferDamage)>) -> Seq<(u64, Seq<i32>)> {
    s.map(|k: int, r: (u64, SufferDamage)| (r.0, r.1.amount@))
}

/// Same ids and the same pending amounts.
pub open spec fn suffering_rows_congruent(
    a: Seq<(u64, SufferDamage)>,
    b: Seq<(u64, SufferDamage)>,
) -> bool {
    suffering_rows(a) == suffering_rows(b)
}

fn build_suffering(w: &World, ids: &Vec<Option<u64>>) -> (out: Vec<(u64, SufferDamage)>)
    requires
        w.wf(),
        ids_ok(*w, ids@),
    ensures
        suffering_rows_congruent(out@, saved_suffering(*w, w.n())),
{
    let mut out: Vec<(u64, SufferDamage)> = Vec::new();
    let n = w.slots.len();
    let mut i: usize = 0;
    while i < n
        invariant
            w.wf(),
            ids_ok(*w, ids@),
            n == w.n(),
            i <= n,
            suffering_rows_congruent(out@, saved_suffering(*w, i as int)),
        decreases n - i,
    {
        let slot = w.slots[i];
        let is_marked = !matches!(slot.state, SlotState::Free) && (match w.markers.get(i) {
            Some(_) => true,
            None => false,
        });
        if is_marked {
            if let Some(v) = w.suffering.get(i) {
                let id = ids_at(ids, i);
                let ghost prev = out@;
                let rec = SufferDamage { amount: crate::util::copy_vec(&v.amount) };
                out.push((id, rec));
                proof {
                    lemma_mark_count_bounds(*w, i as int);
                    let sv = saved_suffering(*w, i + 1);
                    assert(sv =~= saved_suffering(*w, i as int).push(
                        (mark_count(*w, i as int) as u64, w.suffering@[i as int]->Some_0),
                    ));
                    assert(suffering_rows(prev).len() == prev.len());
                    assert(suffering_rows(saved_suffering(*w, i as int)).len() == saved_suffering(
                        *w,
                        i as int,
                    ).len());
                    assert(prev.len() == saved_suffering(*w, i as int).len());
                    assert(suffering_rows(out@).len() == out@.len());
                    assert(suffering_rows(sv).len() == sv.len());
                    assert(suffering_rows(out@).len() == suffering_rows(sv).len());
                    assert(suffering_rows(out@) =~= suffering_rows(sv)) by {
                        assert forall|k: int| 0 <= k < out@.len() implies suffering_rows(out@)[k]
                            == suffering_rows(sv)[k] by {
                            assert(suffering_rows(out@)[k] == (out@[k].0, out@[k].1.amount@));
                            assert(suffering_rows(sv)[k] == (sv[k].0, sv[k].1.amount@));
                            if k < out@.len() - 1 {
                                assert(out@[k] == prev[k]);
                                assert(sv[k] == saved_suffering(*w, i as int)[k]);
                                assert(suffering_rows(prev)[k] == suffering_rows(
                                    saved_suffering(*w, i as int),
                                )[k]);
                                assert(suffering_rows(prev)[k] == (prev[k].0, prev[k].1.amount@));
                                assert(suffering_rows(saved_suffering(*w, i as int))[k] == (
                                saved_suffering(*w, i as int)[k].0,
                                saved_suffering(*w, i as int)[k].1.amount@,
                                ));
                            } else {
                                assert(out@[k] == (id, rec));
                                assert(sv[k] == (mark_count(*w, i as int) as u64,
                                w.suffering@[i as int]->Some_0));
                            }
                        }
                    }
                }
            }
        }
        i = i + 1;
    }
    out
}
fn build_ranged(w: &World, ids: &Vec<Option<u64>>) -> (out: Vec<(u64, Ranged)>)
    requires
        w.wf(),
        ids_ok(*w, ids@),
    ensures
        out@ == saved_ranged(*w, w.n()),
{
    let mut out: Vec<(u64, Ranged)> = Vec::new();
    let n = w.slots.len();
    let mut i: usize = 0;
    while i < n
        invariant
            w.wf(),
            ids_ok(*w, ids@),
            n == w.n(),
            i <= n,
            out@ == saved_ranged(*w, i as int),
        decreases n - i,
    {
        let slot = w.slots[i];
        let is_marked = !matches!(slot.state, SlotState::Free) && (match w.markers.get(i) {
            Some(_) => true,
            None => false,
        });
        if is_marked {
            if let Some(v) = w.ranged.get(i) {
                let id = ids_at(ids, i);
                let rec = *v;
                out.push((id, rec));
            }
        }
        i = i + 1;
    }
    out
}
fn build_inflicts(w: &World, ids: &Vec<Option<u64>>) -> (out: Vec<(u64, InflictsDamage)>)
    requires
        w.wf(),
        ids_ok(*w, ids@),
    ensures
        out@ == saved_inflicts(*w, w.n()),
{
    let mut out: Vec<(u64, InflictsDamage)> = Vec::new();
    let n = w.slots.len();
    let mut i: usize = 0;
    while i < n
        invariant
            w.wf(),
            ids_ok(*w, ids@),
            n == w.n(),
            i <= n,
            out@ == saved_inflicts(*w, i as int),
        decreases n - i,
    {
        let slot = w.slots[i];
        let is_marked = !matches!(slot.state, SlotState::Free) && (match w.markers.get(i) {
            Some(_) => true,
            None => false,
        });
        if is_marked {
            if let Some(v) = w.inflicts.get(i) {
                let id = ids_at(ids, i);
                let rec = *v;
                out.push((id, rec));
            }
        }
        i = i + 1;
    }
    out
}
fn build_healing(w: &World, ids: &Vec<Option<u64>>) -> (out: Vec<(u64, ProvidesHealing)>)
    requires
        w.wf(),
        ids_ok(*w, ids@),
    ensures
        out@ == saved_healing(*w, w.n()),
{
    let mut out: Vec<(u64, ProvidesHealing)> = Vec::new();
    let n = w.slots.len();
    let mut i: usize = 0;
    while i < n
        invariant
            w.wf(),
            ids_ok(*w, ids@),
            n == w.n(),
            i <= n,
            out@ == saved_healing(*w, i as int),
        decreases n - i,
    {
        let slot = w.slots[i];
        let is_marked = !matches!(slot.state, SlotState::Free) && (match w.markers.get(i) {
            Some(_) => true,
            None => false,
        });
        if is_marked {
            if let Some(v) = w.healing.get(i) {
                let id = ids_at(ids, i);
                let rec = *v;
                out.push((id, rec));
            }
        }
        i = i + 1;
    }
    out
}
fn build_players(w: &World, ids: &Vec<Option<u64>>) -> (out: Vec<u64>)
    requires
        w.wf(),
        ids_ok(*w, ids@),
    ensures
        out@ == saved_players(*w, w.n()),
{
    let mut out: Vec<u64> = Vec::new();
    let n = w.slots.len();
    let mut i: usize = 0;
    while i < n
        invariant
            w.wf(),
            ids_ok(*w, ids@),
            n == w.n(),
            i <= n,
            out@ == saved_players(*w, i as int),
        decreases n - i,
    {
        let slot = w.slots[i];
        let is_marked = !matches!(slot.state, SlotState::Free) && (match w.markers.get(i) {
            Some(_) => true,
            None => false,
        });
        if is_marked {
            if let Some(_) = w.players.get(i) {
                let id = ids_at(ids, i);
                out.push(id);
            }
        }
        i = i + 1;
    }
    out
}
fn build_monsters(w: &World, ids: &Vec<Option<u64>>) -> (out: Vec<u64>)
    requires
        w.wf(),
        ids_ok(*w, ids@),
    ensures
        out@ == saved_monsters(*w, w.n()),
{
    let mut out: Vec<u64> = Vec::new();
    let n = w.slots.len();
    let mut i: usize = 0;
    while i < n
        invariant
            w.wf(),
            ids_ok(*w, ids@),
            n == w.n(),
            i <= n,
            out@ == saved_monsters(*w, i as int),
        decreases n - i,
    {
        let slot = w.slots[i];
        let is_marked = !matches!(slot.state, SlotState::Free) && (match w.markers.get(i) {
            Some(_) => true,
            None => false,
        });
        if is_marked {
            if let Some(_) = w.monsters.get(i) {
                let id = ids_at(ids, i);
                out.push(id);
            }
        }
        i = i + 1;
    }
    out
}
fn build_blockers(w: &World, ids: &Vec<Option<u64>>) -> (out: Vec<u64>)
    requires
        w.wf(),
        ids_ok(*w, ids@),
    ensures
        out@ == saved_blockers(*w, w.n()),
{
    let mut out: Vec<u64> = Vec::new();
    let n = w.slots.len();
    let mut i: usize = 0;
    while i < n
        invariant
            w.wf(),
            ids_ok(*w, ids@),
            n == w.n(),
            i <= n,
            out@ == saved_blockers(*w, i as int),
        decreases n - i,
    {
        let slot = w.slots[i];
        let is_marked = !matches!(slot.state, SlotState::Free) && (match w.markers.get(i) {
            Some(_) => true,
            None => false,
        });
        if is_marked {
            if let Some(_) = w.blockers.get(i) {
                let id = ids_at(ids, i);
                out.push(id);
            }
        }
        i = i + 1;
    }
    out
}
fn build_items(w: &World, ids: &Vec<Option<u64>>) -> (out: Vec<u64>)
    requires
        w.wf(),
        ids_ok(*w, ids@),
    ensures
        out@ == saved_items(*w, w.n()),
{
    let mut out: Vec<u64> = Vec::new();
    let n = w.slots.len();
    let mut i: usize = 0;
    while i < n
        invariant
            w.wf(),
            ids_ok(*w, ids@),
            n == w.n(),
            i <= n,
            out@ == saved_items(*w, i as int),
        decreases n - i,
    {
        let slot = w.slots[i];
        let is_marked = !matches!(slot.state, SlotState::Free) && (match w.markers.get(i) {
            Some(_) => true,
            None => false,
        });
        if is_marked {
            if let Some(_) = w.items.get(i) {
                let id = ids_at(ids, i);
                out.push(id);
            }
        }
        i = i + 1;
    }
    out
}
fn build_consumables(w: &World, ids: &Vec<Option<u64>>) -> (out: Vec<u64>)
    requires
        w.wf(),
        ids_ok(*w, ids@),
    ensures
        out@ == saved_consumables(*w, w.n()),
{
    let mut out: Vec<u64> = Vec::new();
    let n = w.slots.len();
    let mut i: usize = 0;
    while i < n
        invariant
            w.wf(),
            ids_ok(*w, ids@),
            n == w.n(),
            i <= n,
            out@ == saved_consumables(*w, i as int),
        decreases n - i,
    {
        let slot = w.slots[i];
        let is_marked = !matches!(slot.state, SlotState::Free) && (match w.markers.get(i) {
            Some(_) => true,
            None => false,
        });
        if is_marked {
            if let Some(_) = w.consumables.get(i) {
                let id = ids_at(ids, i);
                out.push(id);
            }
        }
        i = i + 1;
    }
    out
}
fn build_backpacks(w: &World, ids: &Vec<Option<u64>>) -> (out: Vec<(u64, u64)>)
    requires
        w.wf(),
        ids_ok(*w, ids@),
    ensures
        out@ == saved_backpacks(*w, w.n()),
{
    let mut out: Vec<(u64, u64)> = Vec::new();
    let n = w.slots.len();
    let mut i: usize = 0;
    while i < n
        invariant
            w.wf(),
            ids_ok(*w, ids@),
            n == w.n(),
            i <= n,
            out@ == saved_backpacks(*w, i as int),
        decreases n - i,
    {
        let slot = w.slots[i];
        let is_marked = !matches!(slot.state, SlotState::Free) && (match w.markers.get(i) {
            Some(_) => true,
            None => false,
        });
        if is_marked {
            if let Some(v) = w.backpacks.get(i) {
                let target = v.owner;
                if w.is_valid(target) {
                    let tm = match w.markers.get(target.index) {
                        Some(_) => true,
                        None => false,
                    };
                    if tm {
                        let id = ids_at(ids, i);
                        let tid = ids_at(ids, target.index);
                        out.push((id, tid));
                    }
                }
            }
        }
        i = i + 1;
    }
    out
}
fn build_melee_intents(w: &World, ids: &Vec<Option<u64>>) -> (out: Vec<(u64, u64)>)
    requires
        w.wf(),
        ids_ok(*w, ids@),
    ensures
        out@ == saved_melee_intents(*w, w.n()),
{
    let mut out: Vec<(u64, u64)> = Vec::new();
    let n = w.slots.len();
    let mut i: usize = 0;
    while i < n
        invariant
            w.wf(),
            ids_ok(*w, ids@),
            n == w.n(),
            i <= n,
            out@ == saved_melee_intents(*w, i as int),
        decreases n - i,
    {
        let slot = w.slots[i];
        let is_marked = !matches!(slot.state, SlotState::Free) && (match w.markers.get(i) {
            Some(_) => true,
            None => false,
        });
        if is_marked {
            if let Some(v) = w.melee_intents.get(i) {
                let target = v.target;
                if w.is_valid(target) {
                    let tm = match w.markers.get(target.index) {
                        Some(_) => true,
                        None => false,
                    };
                    if tm {
                        let id = ids_at(ids, i);
                        let tid = ids_at(ids, target.index);
                        out.push((id, tid));
                    }
                }
            }
        }
        i = i + 1;
    }
    out
}
fn build_use_intents(w: &World, ids: &Vec<Option<u64>>) -> (out: Vec<(u64, u64)>)
    requires
        w.wf(),
        ids_ok(*w, ids@),
    ensures
        out@ == saved_use_intents(*w, w.n()),
{
    let mut out: Vec<(u64, u64)> = Vec::new();
    let n = w.slots.len();
    let mut i: usize = 0;
    while i < n
        invariant
            w.wf(),
            ids_ok(*w, ids@),
            n == w.n(),
            i <= n,
            out@ == saved_use_intents(*w, i as int),
        decreases n - i,
    {
        let slot = w.slots[i];
        let is_marked = !matches!(slot.state, SlotState::Free) && (match w.markers.get(i) {
            Some(_) => true,
            None => false,
        });
        if is_marked {
            if let Some(v) = w.use_intents.get(i) {
                let target = v.item;
                if w.is_valid(target) {
                    let tm = match w.markers.get(target.index) {
                        Some(_) => true,
                        None => false,
                    };
                    if tm {
                        let id = ids_at(ids, i);
                        let tid = ids_at(ids, target.index);
                        out.push((id, tid));
                    }
                }
            }
        }
        i = i + 1;
    }
    out
}
fn build_drop_intents(w: &World, ids: &Vec<Option<u64>>) -> (out: Vec<(u64, u64)>)
    requires
        w.wf(),
        ids_ok(*w, ids@),
    ensures
        out@ == saved_drop_intents(*w, w.n()),
{
    let mut out: Vec<(u64, u64)> = Vec::new();
    let n = w.slots.len();
    let mut i: usize = 0;
    while i < n
        invariant
            w.wf(),
            ids_ok(*w, ids@),
            n == w.n(),
            i <= n,
            out@ == saved_drop_intents(*w, i as int),
        decreases n - i,
    {
        let slot = w.slots[i];
        let is_marked = !matches!(slot.state, SlotState::Free) && (match w.markers.get(i) {
            Some(_) => true,
            None => false,
        });
        if is_marked {
            if let Some(v) = w.drop_intents.get(i) {
                let target = v.item;
                if w.is_valid(target) {
                    let tm = match w.markers.get(target.index) {
                        Some(_) => true,
                        None => false,
                    };
                    if tm {
                        let id = ids_at(ids, i);
                        let tid = ids_at(ids, target.index);
                        out.push((id, tid));
                    }
                }
            }
        }
        i = i + 1;
    }
    out
}
fn build_pickup_intents(w: &World, ids: &Vec<Option<u64>>) -> (out: Vec<(u64, u64, u64)>)
    requires
        w.wf(),
        ids_ok(*w, ids@),
    ensures
        out@ == saved_pickup_intents(*w, w.n()),
{
    let mut out: Vec<(u64, u64, u64)> = Vec::new();
    let n = w.slots.len();
    let mut i: usize = 0;
    while i < n
        invariant
            w.wf(),
            ids_ok(*w, ids@),
            n == w.n(),
            i <= n,
            out@ == saved_pickup_intents(*w, i as int),
        decreases n - i,
    {
        let slot = w.slots[i];
        let is_marked = !matches!(slot.state, SlotState::Free) && (match w.markers.get(i) {
            Some(_) => true,
            None => false,
        });
        if is_marked {
            if let Some(v) = w.pickup_intents.get(i) {
                let collector = v.collected_by;
                let item = v.item;
                if w.is_valid(collector) && w.is_valid(item) {
                    let cm = match w.markers.get(collector.index) {
                        Some(_) => true,
                        None => false,
                    };
                    let im = match w.markers.get(item.index) {
                        Some(_) => true,
                        None => false,
                    };
                    if cm && im {
                        let id = ids_at(ids, i);
                        let cid = ids_at(ids, collector.index);
                        let iid = ids_at(ids, item.index);
                        out.push((id, cid, iid));
                    }
                }
            }
        }
        i = i + 1;
    }
    out
}
/// The exec-side id table matches the mark-count assignment.
pub open spec fn ids_ok(w: World, ids: Seq<Option<u64>>) -> bool {
    &&& ids.len() == w.n()
    &&& forall|i: int|
        #![trigger ids[i]]
        0 <= i < w.n() ==> ids[i] == (if marked(w, i) {
            Some(mark_count(w, i) as u64)
        } else {
            None::<u64>
        })
}

/// Reads a marked slot's id out of the id table.
fn ids_at(ids: &Vec<Option<u64>>, i: usize) -> (id: u64)
    requires
        i < ids@.len(),
        ids@[i as int] is Some,
    ensures
        Some(id) == ids@[i as int],
{
    match ids[i] {
        Some(id) => id,
        None => 0,
    }
}

/// Assigns marker ids: marked slots are numbered in ascending slot order.
fn build_ids(w: &World) -> (ids: Vec<Option<u64>>)
    requires
        w.wf(),
    ensures
        ids_ok(*w, ids@),
{
    let mut ids: Vec<Option<u64>> = Vec::new();
    let n = w.slots.len();
    let mut count: u64 = 0;
    let mut i: usize = 0;
    while i < n
        invariant
            w.wf(),
            n == w.n(),
            i <= n,
            ids@.len() == i,
            count == mark_count(*w, i as int),
            forall|j: int|
                #![trigger ids@[j]]
                0 <= j < i ==> ids@[j] == (if marked(*w, j) {
                    Some(mark_count(*w, j) as u64)
                } else {
                    None::<u64>
                }),
        decreases n - i,
    {
        proof {
            lemma_mark_count_bounds(*w, i as int);
        }
        let slot = w.slots[i];
        let is_marked = !matches!(slot.state, SlotState::Free) && (match w.markers.get(i) {
            Some(_) => true,
            None => false,
        });
        if is_marked {
            ids.push(Some(count));
            count = count + 1;
        } else {
            ids.push(None);
        }
        i = i + 1;
    }
    ids
}

/// Serializes the world: tags are read from the persistence markers, each
/// component table is written against stable ids, references are rewritten,
/// and an ephemeral marked helper entity wrapping a deep copy of the map is
/// created, recorded last in the helper table, and destroyed (deferred).
pub fn save_game(world: &mut World, map: &GameMap) -> (sd: SaveData)
    requires
        old(world).wf(),
    ensures
        final(world).wf(),
        old(world).n() <= final(world).n(),
        forall|j: int|
            0 <= j < old(world).n() && old(world).present_at(j) ==> final(world).slots@[j] == old(
                world,
            ).slots@[j] && World::comps_eq_at(*old(world), *final(world), j),
        // saving is read-only for the live world: the ephemeral helper is
        // destroyed again, so every entity alive afterwards was alive before
        forall|j: int|
            #![trigger final(world).alive_at(j)]
            0 <= j < final(world).n() && final(world).alive_at(j) ==> 0 <= j < old(world).n()
                && old(world).alive_at(j),
        sd.positions@ == saved_positions(*old(world), old(world).n()),
        sd.renderables@ == saved_renderables(*old(world), old(world).n()),
        sd.names@ == saved_names(*old(world), old(world).n()),
        viewshed_rows_congruent(sd.viewsheds@, saved_viewsheds(*old(world), old(world).n())),
        sd.combat_stats@ == saved_combat_stats(*old(world), old(world).n()),
        suffering_rows_congruent(sd.suffering@, saved_suffering(*old(world), old(world).n())),
        sd.ranged@ == saved_ranged(*old(world), old(world).n()),
        sd.inflicts@ == saved_inflicts(*old(world), old(world).n()),
        sd.healing@ == saved_healing(*old(world), old(world).n()),
        sd.players@ == saved_players(*old(world), old(world).n()),
        sd.monsters@ == saved_monsters(*old(world), old(world).n()),
        sd.blockers@ == saved_blockers(*old(world), old(world).n()),
        sd.items@ == saved_items(*old(world), old(world).n()),
        sd.consumables@ == saved_consumables(*old(world), old(world).n()),
        sd.backpacks@ == saved_backpacks(*old(world), old(world).n()),
        sd.melee_intents@ == saved_melee_intents(*old(world), old(world).n()),
        sd.use_intents@ == saved_use_intents(*old(world), old(world).n()),
        sd.drop_intents@ == saved_drop_intents(*old(world), old(world).n()),
        sd.pickup_intents@ == saved_pickup_intents(*old(world), old(world).n()),
        sd.helpers@.len() >= 1,
        GameMap::congruent(sd.helpers@.last().1, *map),
        (forall|i: int|
            0 <= i < old(world).n() && marked(*old(world), i) ==> old(world).helpers@[i] is None)
            ==> sd.helpers@.len() == 1 && sd.helpers@[0].0 == mark_count(
            *old(world),
            old(world).n(),
        ),
{
    let ids = build_ids(world);
    let sd = SaveData {
        positions: build_positions(world, &ids),
        renderables: build_renderables(world, &ids),
        names: build_names(world, &ids),
        viewsheds: build_viewsheds(world, &ids),
        combat_stats: build_combat_stats(world, &ids),
        suffering: build_suffering(world, &ids),
        ranged: build_ranged(world, &ids),
        inflicts: build_inflicts(world, &ids),
        healing: build_healing(world, &ids),
        players: build_players(world, &ids),
        monsters: build_monsters(world, &ids),
        blockers: build_blockers(world, &ids),
        items: build_items(world, &ids),
        consumables: build_consumables(world, &ids),
        backpacks: build_backpacks(world, &ids),
        melee_intents: build_melee_intents(world, &ids),
        use_intents: build_use_intents(world, &ids),
        drop_intents: build_drop_intents(world, &ids),
        pickup_intents: build_pickup_intents(world, &ids),
        helpers: build_helpers_table(world, &ids, map),
    };
    let ghost w0 = *world;
    let savehelper = world.create();
    let ghost wc = *world;
    world.helpers.set(savehelper.index, Some(SerializationHelper { map: map.duplicate() }));
    world.markers.set(savehelper.index, Some(SerializeMe {}));
    proof {
        assert forall|j: int|
            0 <= j < world.n() && world.slots@[j].state is Free implies world.no_comps_at(j) by {
            assert(j != savehelper.index);
            if j < w0.n() {
                assert(wc.slots@[j] == w0.slots@[j]);
                assert(World::comps_eq_at(w0, wc, j));
                assert(w0.slots@[j].state is Free && w0.no_comps_at(j));
            } else {
                assert(wc.alive(savehelper));
            }
        }
    }
    let ghost w1 = *world;
    world.destroy(savehelper);
    proof {
        assert forall|j: int|
            0 <= j < old(world).n() && old(world).present_at(j) implies final(world).slots@[j]
            == old(world).slots@[j] && World::comps_eq_at(*old(world), *final(world), j) by {
            assert(j != savehelper.index);
            assert(wc.slots@[j] == w0.slots@[j]);
            assert(World::comps_eq_at(w0, wc, j));
            assert(World::comps_eq_at(w1, *world, j));
        }
        assert(w1.alive(savehelper));
        assert(!world.alive_at(savehelper.index as int));
        assert forall|j: int|
            0 <= j < world.n() && world.alive_at(j) implies 0 <= j < w0.n() && w0.alive_at(
            j,
        ) by {
            assert(j != savehelper.index);
            assert(j < w0.n());
            assert(wc.slots@[j] == w0.slots@[j]);
        }
    }
    sd
}

/// The helper table: any pre-existing helper components first, then the
/// fresh map copy under the next id.
fn build_helpers_table(w: &World, ids: &Vec<Option<u64>>, map: &GameMap) -> (out: Vec<
    (u64, GameMap),
>)
    requires
        w.wf(),
        ids_ok(*w, ids@),
    ensures
        out@.len() >= 1,
        GameMap::congruent(out@.last().1, *map),
        (forall|i: int| 0 <= i < w.n() && marked(*w, i) ==> w.helpers@[i] is None) ==> out@.len()
            == 1 && out@[0].0 == mark_count(*w, w.n()),
{
    let mut out: Vec<(u64, GameMap)> = Vec::new();
    let n = w.slots.len();
    let mut i: usize = 0;
    let mut count: u64 = 0;
    while i < n
        invariant
            w.wf(),
            ids_ok(*w, ids@),
            n == w.n(),
            i <= n,
            count == mark_count(*w, i as int),
            (forall|t: int| 0 <= t < w.n() && marked(*w, t) ==> w.helpers@[t] is None) ==> out@.len()
                == 0,
        decreases n - i,
    {
        proof {
            lemma_mark_count_bounds(*w, i as int);
        }
        let slot = w.slots[i];
        let is_marked = !matches!(slot.state, SlotState::Free) && (match w.markers.get(i) {
            Some(_) => true,
            None => false,
        });
        if is_marked {
            if let Some(h) = w.helpers.get(i) {
                proof {
                    if forall|t: int| 0 <= t < w.n() && marked(*w, t) ==> w.helpers@[t] is None {
                        assert(marked(*w, i as int));
                        assert(w.helpers@[i as int] is None);
                    }
                }
                out.push((count, h.map.duplicate()));
            }
            count = count + 1;
        }
        i = i + 1;
    }
    out.push((count, map.duplicate()));
    out
}

/// Why a load was refused.
#[derive(Clone, Copy, PartialEq, Eq, Structural, Debug)]
pub enum LoadError {
    /// No helper record: the save carries no map singleton.
    NoMapRecord,
    /// A marker id too large for this machine's address space.
    TooManyEntities,
}

/// A restored simulation: the rebuilt store and the map singleton.
pub struct LoadedGame {
    pub world: World,
    pub map: GameMap,
}

fn max2(a: u64, b: u64) -> (m: u64)
    ensures
        m >= a,
        m >= b,
        m == a || m == b,
{
    if a > b {
        a
    } else {
        b
    }
}

fn max_key_vtab<T>(v: &Vec<(u64, T)>) -> (m: u64)
    ensures
        forall|k: int| 0 <= k < v@.len() ==> #[trigger] v@[k].0 <= m,
        m == 0 || exists|k: int| 0 <= k < v@.len() && #[trigger] v@[k].0 == m,
{
    let mut m: u64 = 0;
    let n = v.len();
    let mut k: usize = 0;
    while k < n
        invariant
            n == v@.len(),
            k <= n,
            forall|t: int| 0 <= t < k ==> #[trigger] v@[t].0 <= m,
            m == 0 || exists|t: int| 0 <= t < k && #[trigger] v@[t].0 == m,
        decreases n - k,
    {
        if v[k].0 > m {
            m = v[k].0;
        }
        k = k + 1;
    }
    m
}

fn max_key_tag(v: &Vec<u64>) -> (m: u64)
    ensures
        forall|k: int| 0 <= k < v@.len() ==> #[trigger] v@[k] <= m,
        m == 0 || exists|k: int| 0 <= k < v@.len() && #[trigger] v@[k] == m,
{
    let mut m: u64 = 0;
    let n = v.len();
    let mut k: usize = 0;
    while k < n
        invariant
            n == v@.len(),
            k <= n,
            forall|t: int| 0 <= t < k ==> #[trigger] v@[t] <= m,
            m == 0 || exists|t: int| 0 <= t < k && #[trigger] v@[t] == m,
        decreases n - k,
    {
        if v[k] > m {
            m = v[k];
        }
        k = k + 1;
    }
    m
}

fn max_key_refs(v: &Vec<(u64, u64)>) -> (m: u64)
    ensures
        forall|k: int| 0 <= k < v@.len() ==> #[trigger] v@[k].0 <= m,
        forall|k: int| 0 <= k < v@.len() ==> #[trigger] v@[k].1 <= m,
        m == 0 || exists|k: int| #![trigger v@[k]] 0 <= k < v@.len() && (v@[k].0 == m || v@[k].1 == m),
{
    let mut m: u64 = 0;
    let n = v.len();
    let mut k: usize = 0;
    while k < n
        invariant
            n == v@.len(),
            k <= n,
            forall|t: int| 0 <= t < k ==> #[trigger] v@[t].0 <= m,
            forall|t: int| 0 <= t < k ==> #[trigger] v@[t].1 <= m,
            m == 0 || exists|t: int| #![trigger v@[t]] 0 <= t < k && (v@[t].0 == m || v@[t].1 == m),
        decreases n - k,
    {
        if v[k].0 > m {
            m = v[k].0;
        }
        if v[k].1 > m {
            m = v[k].1;
        }
        proof {
            let kk = k as int;
            if v@[kk].0 == m || v@[kk].1 == m {
                assert(0 <= kk < k + 1 && (v@[kk].0 == m || v@[kk].1 == m));
            }
        }
        k = k + 1;
    }
    m
}

fn max_key_refs3(v: &Vec<(u64, u64, u64)>) -> (m: u64)
    ensures
        forall|k: int| 0 <= k < v@.len() ==> #[trigger] v@[k].0 <= m,
        forall|k: int| 0 <= k < v@.len() ==> #[trigger] v@[k].1 <= m,
        forall|k: int| 0 <= k < v@.len() ==> #[trigger] v@[k].2 <= m,
        m == 0 || exists|k: int|
            #![trigger v@[k]]
            0 <= k < v@.len() && (v@[k].0 == m || v@[k].1 == m || v@[k].2 == m),
    {
    let mut m: u64 = 0;
    let n = v.len();
    let mut k: usize = 0;
    while k < n
        invariant
            n == v@.len(),
            k <= n,
            forall|t: int| 0 <= t < k ==> #[trigger] v@[t].0 <= m,
            forall|t: int| 0 <= t < k ==> #[trigger] v@[t].1 <= m,
            forall|t: int| 0 <= t < k ==> #[trigger] v@[t].2 <= m,
            m == 0 || exists|t: int|
                #![trigger v@[t]]
                0 <= t < k && (v@[t].0 == m || v@[t].1 == m || v@[t].2 == m),
        decreases n - k,
    {
        if v[k].0 > m {
            m = v[k].0;
        }
        if v[k].1 > m {
            m = v[k].1;
        }
        if v[k].2 > m {
            m = v[k].2;
        }
        proof {
            let kk = k as int;
            if v@[kk].0 == m || v@[kk].1 == m || v@[kk].2 == m {
                assert(0 <= kk < k + 1 && (v@[kk].0 == m || v@[kk].1 == m || v@[kk].2 == m));
            }
        }
        k = k + 1;
    }
    m
}

/// Every marker id the save mentions, as key or reference, fits a slot
/// index on this machine: exactly then a load succeeds (given a map record).
pub open spec fn ids_fit(sd: SaveData) -> bool {
    &&& forall|t: int| 0 <= t < sd.positions@.len() ==> (#[trigger] sd.positions@[t].0) < usize::MAX
    &&& forall|t: int|
        0 <= t < sd.renderables@.len() ==> (#[trigger] sd.renderables@[t].0) < usize::MAX
    &&& forall|t: int| 0 <= t < sd.names@.len() ==> (#[trigger] sd.names@[t].0) < usize::MAX
    &&& forall|t: int| 0 <= t < sd.viewsheds@.len() ==> (#[trigger] sd.viewsheds@[t].0) < usize::MAX
    &&& forall|t: int|
        0 <= t < sd.combat_stats@.len() ==> (#[trigger] sd.combat_stats@[t].0) < usize::MAX
    &&& forall|t: int| 0 <= t < sd.suffering@.len() ==> (#[trigger] sd.suffering@[t].0) < usize::MAX
    &&& forall|t: int| 0 <= t < sd.ranged@.len() ==> (#[trigger] sd.ranged@[t].0) < usize::MAX
    &&& forall|t: int| 0 <= t < sd.inflicts@.len() ==> (#[trigger] sd.inflicts@[t].0) < usize::MAX
    &&& forall|t: int| 0 <= t < sd.healing@.len() ==> (#[trigger] sd.healing@[t].0) < usize::MAX
    &&& forall|t: int| 0 <= t < sd.players@.len() ==> (#[trigger] sd.players@[t]) < usize::MAX
    &&& forall|t: int| 0 <= t < sd.monsters@.len() ==> (#[trigger] sd.monsters@[t]) < usize::MAX
    &&& forall|t: int| 0 <= t < sd.blockers@.len() ==> (#[trigger] sd.blockers@[t]) < usize::MAX
    &&& forall|t: int| 0 <= t < sd.items@.len() ==> (#[trigger] sd.items@[t]) < usize::MAX
    &&& forall|t: int|
        0 <= t < sd.consumables@.len() ==> (#[trigger] sd.consumables@[t]) < usize::MAX
    &&& forall|t: int|
        0 <= t < sd.backpacks@.len() ==> (#[trigger] sd.backpacks@[t].0) < usize::MAX
            && sd.backpacks@[t].1 < usize::MAX
    &&& forall|t: int|
        0 <= t < sd.melee_intents@.len() ==> (#[trigger] sd.melee_intents@[t].0) < usize::MAX
            && sd.melee_intents@[t].1 < usize::MAX
    &&& forall|t: int|
        0 <= t < sd.use_intents@.len() ==> (#[trigger] sd.use_intents@[t].0) < usize::MAX
            && sd.use_intents@[t].1 < usize::MAX
    &&& forall|t: int|
        0 <= t < sd.drop_intents@.len() ==> (#[trigger] sd.drop_intents@[t].0) < usize::MAX
            && sd.drop_intents@[t].1 < usize::MAX
    &&& forall|t: int|
        0 <= t < sd.pickup_intents@.len() ==> (#[trigger] sd.pickup_intents@[t].0) < usize::MAX
            && sd.pickup_intents@[t].1 < usize::MAX && sd.pickup_intents@[t].2 < usize::MAX
    &&& forall|t: int| 0 <= t < sd.helpers@.len() ==> (#[trigger] sd.helpers@[t].0) < usize::MAX
}

/// A key of the helper table: the entity that wrapped the map, destroyed
/// again after a load.
pub open spec fn is_helper_key(sd: SaveData, id: int) -> bool {
    exists|h: int| 0 <= h < sd.helpers@.len() && sd.helpers@[h].0 == id
}

/// The table rows with key `id` after row `k` are absent: row `k` is the one
/// that wins.
pub open spec fn last_name_row(sd: SaveData, k: int) -> bool {
    forall|k2: int| k < k2 < sd.names@.len() ==> sd.names@[k2].0 != sd.names@[k].0
}

pub open spec fn last_stats_row(sd: SaveData, k: int) -> bool {
    forall|k2: int| k < k2 < sd.combat_stats@.len() ==> sd.combat_stats@[k2].0 != sd.combat_stats@[k].0
}

pub open spec fn last_backpack_row(sd: SaveData, k: int) -> bool {
    forall|k2: int| k < k2 < sd.backpacks@.len() ==> sd.backpacks@[k2].0 != sd.backpacks@[k].0
}

pub open spec fn last_melee_row(sd: SaveData, k: int) -> bool {
    forall|k2: int| k < k2 < sd.melee_intents@.len() ==> sd.melee_intents@[k2].0
        != sd.melee_intents@[k].0
}

/// Restores a save: re-creates one fresh entity per marker id, re-attaches
/// every component table (rewriting references through the id-to-handle
/// correspondence), restores the map singleton from the last helper record,
/// and destroys the helper entities again. Duplicate keys follow
/// attach-overwrites semantics: the last row wins.
#[verifier::rlimit(100)]
#[verifier::spinoff_prover]
/// Everything a successful load guarantees of the rebuilt store.
pub open spec fn loaded_world_ok(sd: SaveData, world: World) -> bool {
    &&& (forall|k: int|
                #![trigger sd.names@[k]]
                0 <= k < sd.names@.len() && last_name_row(sd, k) && !is_helper_key(
                    sd,
                    sd.names@[k].0 as int,
                ) ==> sd.names@[k].0 < world.n() && world.present_at(sd.names@[k].0 as int)
                    && (world.names@[sd.names@[k].0 as int] matches Some(nm) && nm.name@
                    == sd.names@[k].1.name@) && world.slots@[sd.names@[k].0 as int].gen == 0)
    &&& (forall|k: int|
                #![trigger sd.combat_stats@[k]]
                0 <= k < sd.combat_stats@.len() && last_stats_row(sd, k) && !is_helper_key(
                    sd,
                    sd.combat_stats@[k].0 as int,
                ) ==> sd.combat_stats@[k].0 < world.n() && world.present_at(
                    sd.combat_stats@[k].0 as int,
                ) && world.combat_stats@[sd.combat_stats@[k].0 as int] == Some(
                    sd.combat_stats@[k].1,
                ) && world.slots@[sd.combat_stats@[k].0 as int].gen == 0)
    &&& (forall|k: int|
                #![trigger sd.backpacks@[k]]
                0 <= k < sd.backpacks@.len() && last_backpack_row(sd, k) && !is_helper_key(
                    sd,
                    sd.backpacks@[k].0 as int,
                ) ==> sd.backpacks@[k].0 < world.n() && world.backpacks@[sd.backpacks@[k].0 as int]
                    == Some(
                    InBackpack { owner: Entity { index: sd.backpacks@[k].1 as usize, gen: 0 } },
                ))
    &&& (forall|k: int|
                #![trigger sd.melee_intents@[k]]
                0 <= k < sd.melee_intents@.len() && last_melee_row(sd, k) && !is_helper_key(
                    sd,
                    sd.melee_intents@[k].0 as int,
                ) ==> sd.melee_intents@[k].0 < world.n() && world.melee_intents@[
                    sd.melee_intents@[k].0 as int
                ] == Some(
                    WantsToMelee { target: Entity { index: sd.melee_intents@[k].1 as usize, gen: 0 } },
                ))
    &&& (forall|k: int|
                #![trigger sd.positions@[k]]
                0 <= k < sd.positions@.len() && (forall|k2: int|
                    k < k2 < sd.positions@.len() ==> sd.positions@[k2].0 != sd.positions@[k].0)
                    && !is_helper_key(sd, sd.positions@[k].0 as int)
                    ==> world.positions@[sd.positions@[k].0 as int] == Some(sd.positions@[k].1))
    &&& (forall|k: int|
                #![trigger sd.renderables@[k]]
                0 <= k < sd.renderables@.len() && (forall|k2: int|
                    k < k2 < sd.renderables@.len() ==> sd.renderables@[k2].0
                        != sd.renderables@[k].0) && !is_helper_key(
                    sd,
                    sd.renderables@[k].0 as int,
                ) ==> world.renderables@[sd.renderables@[k].0 as int] == Some(
                    sd.renderables@[k].1,
                ))
    &&& (forall|k: int|
                #![trigger sd.viewsheds@[k]]
                0 <= k < sd.viewsheds@.len() && (forall|k2: int|
                    k < k2 < sd.viewsheds@.len() ==> sd.viewsheds@[k2].0 != sd.viewsheds@[k].0)
                    && !is_helper_key(sd, sd.viewsheds@[k].0 as int) ==> (
                world.viewsheds@[sd.viewsheds@[k].0 as int] matches Some(v) && v.range
                    == sd.viewsheds@[k].1.range && v.dirty == sd.viewsheds@[k].1.dirty
                    && v.visible_tiles@ == sd.viewsheds@[k].1.visible_tiles@))
    &&& (forall|k: int|
                #![trigger sd.suffering@[k]]
                0 <= k < sd.suffering@.len() && (forall|k2: int|
                    k < k2 < sd.suffering@.len() ==> sd.suffering@[k2].0 != sd.suffering@[k].0)
                    && !is_helper_key(sd, sd.suffering@[k].0 as int) ==> (
                world.suffering@[sd.suffering@[k].0 as int] matches Some(s) && s.amount@
                    == sd.suffering@[k].1.amount@))
    &&& (forall|k: int|
                #![trigger sd.ranged@[k]]
                0 <= k < sd.ranged@.len() && (forall|k2: int|
                    k < k2 < sd.ranged@.len() ==> sd.ranged@[k2].0 != sd.ranged@[k].0)
                    && !is_helper_key(sd, sd.ranged@[k].0 as int)
                    ==> world.ranged@[sd.ranged@[k].0 as int] == Some(sd.ranged@[k].1))
    &&& (forall|k: int|
                #![trigger sd.inflicts@[k]]
                0 <= k < sd.inflicts@.len() && (forall|k2: int|
                    k < k2 < sd.inflicts@.len() ==> sd.inflicts@[k2].0 != sd.inflicts@[k].0)
                    && !is_helper_key(sd, sd.inflicts@[k].0 as int)
                    ==> world.inflicts@[sd.inflicts@[k].0 as int] == Some(sd.inflicts@[k].1))
    &&& (forall|k: int|
                #![trigger sd.healing@[k]]
                0 <= k < sd.healing@.len() && (forall|k2: int|
                    k < k2 < sd.healing@.len() ==> sd.healing@[k2].0 != sd.healing@[k].0)
                    && !is_helper_key(sd, sd.healing@[k].0 as int)
                    ==> world.healing@[sd.healing@[k].0 as int] == Some(sd.healing@[k].1))
    &&& (forall|k: int|
                0 <= k < sd.players@.len() && !is_helper_key(sd, #[trigger] sd.players@[k] as int)
                    ==> world.players@[sd.players@[k] as int] == Some(Player {  }))
    &&& (forall|k: int|
                0 <= k < sd.monsters@.len() && !is_helper_key(
                    sd,
                    #[trigger] sd.monsters@[k] as int,
                ) ==> world.monsters@[sd.monsters@[k] as int] == Some(Monster {  }))
    &&& (forall|k: int|
                0 <= k < sd.blockers@.len() && !is_helper_key(
                    sd,
                    #[trigger] sd.blockers@[k] as int,
                ) ==> world.blockers@[sd.blockers@[k] as int] == Some(BlocksTile {  }))
    &&& (forall|k: int|
                0 <= k < sd.items@.len() && !is_helper_key(sd, #[trigger] sd.items@[k] as int)
                    ==> world.items@[sd.items@[k] as int] == Some(Item {  }))
    &&& (forall|k: int|
                0 <= k < sd.consumables@.len() && !is_helper_key(
                    sd,
                    #[trigger] sd.consumables@[k] as int,
                ) ==> world.consumables@[sd.consumables@[k] as int] == Some(Consumable {  }))
    &&& (forall|k: int|
                #![trigger sd.use_intents@[k]]
                0 <= k < sd.use_intents@.len() && (forall|k2: int|
                    k < k2 < sd.use_intents@.len() ==> sd.use_intents@[k2].0
                        != sd.use_intents@[k].0) && !is_helper_key(
                    sd,
                    sd.use_intents@[k].0 as int,
                ) ==> world.use_intents@[sd.use_intents@[k].0 as int] == Some(
                    WantsToUseItem {
                        item: Entity { index: sd.use_intents@[k].1 as usize, gen: 0 },
                    },
                ))
    &&& (forall|k: int|
                #![trigger sd.drop_intents@[k]]
                0 <= k < sd.drop_intents@.len() && (forall|k2: int|
                    k < k2 < sd.drop_intents@.len() ==> sd.drop_intents@[k2].0
                        != sd.drop_intents@[k].0) && !is_helper_key(
                    sd,
                    sd.drop_intents@[k].0 as int,
                ) ==> world.drop_intents@[sd.drop_intents@[k].0 as int] == Some(
                    WantsToDropItem {
                        item: Entity { index: sd.drop_intents@[k].1 as usize, gen: 0 },
                    },
                ))
    &&& (forall|k: int|
                #![trigger sd.pickup_intents@[k]]
                0 <= k < sd.pickup_intents@.len() && (forall|k2: int|
                    k < k2 < sd.pickup_intents@.len() ==> sd.pickup_intents@[k2].0
                        != sd.pickup_intents@[k].0) && !is_helper_key(
                    sd,
                    sd.pickup_intents@[k].0 as int,
                ) ==> world.pickup_intents@[sd.pickup_intents@[k].0 as int] == Some(
                    WantsToPickupItem {
                        collected_by: Entity { index: sd.pickup_intents@[k].1 as usize, gen: 0 },
                        item: Entity { index: sd.pickup_intents@[k].2 as usize, gen: 0 },
                    },
                ))
    &&& (forall|id: int|
                #![trigger world.markers@[id]]
                0 <= id < world.n() && !is_helper_key(sd, id) ==> world.markers@[id]
                    == Some(SerializeMe {  }))
    &&& (forall|id: int|
                #![trigger world.slots@[id]]
                0 <= id < world.n() && !is_helper_key(sd, id) ==> world.present_at(id)
                    && world.slots@[id].gen == 0)
}

/// Rebuilds the store from a save whose ids all lie below `count`: one fresh
/// entity per id, every table re-attached with references rewritten, the
/// helper entities destroyed and reclaimed.
#[verifier::rlimit(100)]
#[verifier::spinoff_prover]
fn load_world(sd: &SaveData, count: usize) -> (world: World)
    requires
        count >= 1,
        forall|t: int| 0 <= t < sd.positions@.len() ==> #[trigger] sd.positions@[t].0 < count,
        forall|t: int| 0 <= t < sd.renderables@.len() ==> #[trigger] sd.renderables@[t].0 < count,
        forall|t: int| 0 <= t < sd.names@.len() ==> #[trigger] sd.names@[t].0 < count,
        forall|t: int| 0 <= t < sd.viewsheds@.len() ==> #[trigger] sd.viewsheds@[t].0 < count,
        forall|t: int| 0 <= t < sd.combat_stats@.len() ==> #[trigger] sd.combat_stats@[t].0 < count,
        forall|t: int| 0 <= t < sd.suffering@.len() ==> #[trigger] sd.suffering@[t].0 < count,
        forall|t: int| 0 <= t < sd.ranged@.len() ==> #[trigger] sd.ranged@[t].0 < count,
        forall|t: int| 0 <= t < sd.inflicts@.len() ==> #[trigger] sd.inflicts@[t].0 < count,
        forall|t: int| 0 <= t < sd.healing@.len() ==> #[trigger] sd.healing@[t].0 < count,
        forall|t: int| 0 <= t < sd.players@.len() ==> #[trigger] sd.players@[t] < count,
        forall|t: int| 0 <= t < sd.monsters@.len() ==> #[trigger] sd.monsters@[t] < count,
        forall|t: int| 0 <= t < sd.blockers@.len() ==> #[trigger] sd.blockers@[t] < count,
        forall|t: int| 0 <= t < sd.items@.len() ==> #[trigger] sd.items@[t] < count,
        forall|t: int| 0 <= t < sd.consumables@.len() ==> #[trigger] sd.consumables@[t] < count,
        forall|t: int|
            0 <= t < sd.backpacks@.len() ==> #[trigger] sd.backpacks@[t].0 < count
                && sd.backpacks@[t].1 < count,
        forall|t: int|
            0 <= t < sd.melee_intents@.len() ==> #[trigger] sd.melee_intents@[t].0 < count
                && sd.melee_intents@[t].1 < count,
        forall|t: int|
            0 <= t < sd.use_intents@.len() ==> #[trigger] sd.use_intents@[t].0 < count
                && sd.use_intents@[t].1 < count,
        forall|t: int|
            0 <= t < sd.drop_intents@.len() ==> #[trigger] sd.drop_intents@[t].0 < count
                && sd.drop_intents@[t].1 < count,
        forall|t: int|
            0 <= t < sd.pickup_intents@.len() ==> #[trigger] sd.pickup_intents@[t].0 < count
                && sd.pickup_intents@[t].1 < count && sd.pickup_intents@[t].2 < count,
        forall|t: int| 0 <= t < sd.helpers@.len() ==> #[trigger] sd.helpers@[t].0 < count,
    ensures
        world.wf(),
        forall|k: int|
                #![trigger sd.names@[k]]
                0 <= k < sd.names@.len() && last_name_row(*sd, k) && !is_helper_key(
                    *sd,
                    sd.names@[k].0 as int,
                ) ==> sd.names@[k].0 < world.n() && world.present_at(sd.names@[k].0 as int)
                    && (world.names@[sd.names@[k].0 as int] matches Some(nm) && nm.name@
                    == sd.names@[k].1.name@) && world.slots@[sd.names@[k].0 as int].gen == 0,
        forall|k: int|
                #![trigger sd.combat_stats@[k]]
                0 <= k < sd.combat_stats@.len() && last_stats_row(*sd, k) && !is_helper_key(
                    *sd,
                    sd.combat_stats@[k].0 as int,
                ) ==> sd.combat_stats@[k].0 < world.n() && world.present_at(
                    sd.combat_stats@[k].0 as int,
                ) && world.combat_stats@[sd.combat_stats@[k].0 as int] == Some(
                    sd.combat_stats@[k].1,
                ) && world.slots@[sd.combat_stats@[k].0 as int].gen == 0,
        forall|k: int|
                #![trigger sd.backpacks@[k]]
                0 <= k < sd.backpacks@.len() && last_backpack_row(*sd, k) && !is_helper_key(
                    *sd,
                    sd.backpacks@[k].0 as int,
                ) ==> sd.backpacks@[k].0 < world.n() && world.backpacks@[sd.backpacks@[k].0 as int]
                    == Some(
                    InBackpack { owner: Entity { index: sd.backpacks@[k].1 as usize, gen: 0 } },
                ),
        forall|k: int|
                #![trigger sd.melee_intents@[k]]
                0 <= k < sd.melee_intents@.len() && last_melee_row(*sd, k) && !is_helper_key(
                    *sd,
                    sd.melee_intents@[k].0 as int,
                ) ==> sd.melee_intents@[k].0 < world.n() && world.melee_intents@[
                    sd.melee_intents@[k].0 as int
                ] == Some(
                    WantsToMelee { target: Entity { index: sd.melee_intents@[k].1 as usize, gen: 0 } },
                ),
        forall|k: int|
                #![trigger sd.positions@[k]]
                0 <= k < sd.positions@.len() && (forall|k2: int|
                    k < k2 < sd.positions@.len() ==> sd.positions@[k2].0 != sd.positions@[k].0)
                    && !is_helper_key(*sd, sd.positions@[k].0 as int)
                    ==> world.positions@[sd.positions@[k].0 as int] == Some(sd.positions@[k].1),
        forall|k: int|
                #![trigger sd.renderables@[k]]
                0 <= k < sd.renderables@.len() && (forall|k2: int|
                    k < k2 < sd.renderables@.len() ==> sd.renderables@[k2].0
                        != sd.renderables@[k].0) && !is_helper_key(
                    *sd,
                    sd.renderables@[k].0 as int,
                ) ==> world.renderables@[sd.renderables@[k].0 as int] == Some(
                    sd.renderables@[k].1,
                ),
        forall|k: int|
                #![trigger sd.viewsheds@[k]]
                0 <= k < sd.viewsheds@.len() && (forall|k2: int|
                    k < k2 < sd.viewsheds@.len() ==> sd.viewsheds@[k2].0 != sd.viewsheds@[k].0)
                    && !is_helper_key(*sd, sd.viewsheds@[k].0 as int) ==> (
                world.viewsheds@[sd.viewsheds@[k].0 as int] matches Some(v) && v.range
                    == sd.viewsheds@[k].1.range && v.dirty == sd.viewsheds@[k].1.dirty
                    && v.visible_tiles@ == sd.viewsheds@[k].1.visible_tiles@),
        forall|k: int|
                #![trigger sd.suffering@[k]]
                0 <= k < sd.suffering@.len() && (forall|k2: int|
                    k < k2 < sd.suffering@.len() ==> sd.suffering@[k2].0 != sd.suffering@[k].0)
                    && !is_helper_key(*sd, sd.suffering@[k].0 as int) ==> (
                world.suffering@[sd.suffering@[k].0 as int] matches Some(s) && s.amount@
                    == sd.suffering@[k].1.amount@),
        forall|k: int|
                #![trigger sd.ranged@[k]]
                0 <= k < sd.ranged@.len() && (forall|k2: int|
                    k < k2 < sd.ranged@.len() ==> sd.ranged@[k2].0 != sd.ranged@[k].0)
                    && !is_helper_key(*sd, sd.ranged@[k].0 as int)
                    ==> world.ranged@[sd.ranged@[k].0 as int] == Some(sd.ranged@[k].1),
        forall|k: int|
                #![trigger sd.inflicts@[k]]
                0 <= k < sd.inflicts@.len() && (forall|k2: int|
                    k < k2 < sd.inflicts@.len() ==> sd.inflicts@[k2].0 != sd.inflicts@[k].0)
                    && !is_helper_key(*sd, sd.inflicts@[k].0 as int)
                    ==> world.inflicts@[sd.inflicts@[k].0 as int] == Some(sd.inflicts@[k].1),
        forall|k: int|
                #![trigger sd.healing@[k]]
                0 <= k < sd.healing@.len() && (forall|k2: int|
                    k < k2 < sd.healing@.len() ==> sd.healing@[k2].0 != sd.healing@[k].0)
                    && !is_helper_key(*sd, sd.healing@[k].0 as int)
                    ==> world.healing@[sd.healing@[k].0 as int] == Some(sd.healing@[k].1),
        forall|k: int|
                0 <= k < sd.players@.len() && !is_helper_key(*sd, #[trigger] sd.players@[k] as int)
                    ==> world.players@[sd.players@[k] as int] == Some(Player {  }),
        forall|k: int|
                0 <= k < sd.monsters@.len() && !is_helper_key(
                    *sd,
                    #[trigger] sd.monsters@[k] as int,
                ) ==> world.monsters@[sd.monsters@[k] as int] == Some(Monster {  }),
        forall|k: int|
                0 <= k < sd.blockers@.len() && !is_helper_key(
                    *sd,
                    #[trigger] sd.blockers@[k] as int,
                ) ==> world.blockers@[sd.blockers@[k] as int] == Some(BlocksTile {  }),
        forall|k: int|
                0 <= k < sd.items@.len() && !is_helper_key(*sd, #[trigger] sd.items@[k] as int)
                    ==> world.items@[sd.items@[k] as int] == Some(Item {  }),
        forall|k: int|
                0 <= k < sd.consumables@.len() && !is_helper_key(
                    *sd,
                    #[trigger] sd.consumables@[k] as int,
                ) ==> world.consumables@[sd.consumables@[k] as int] == Some(Consumable {  }),
        forall|k: int|
                #![trigger sd.use_intents@[k]]
                0 <= k < sd.use_intents@.len() && (forall|k2: int|
                    k < k2 < sd.use_intents@.len() ==> sd.use_intents@[k2].0
                        != sd.use_intents@[k].0) && !is_helper_key(
                    *sd,
                    sd.use_intents@[k].0 as int,
                ) ==> world.use_intents@[sd.use_intents@[k].0 as int] == Some(
                    WantsToUseItem {
                        item: Entity { index: sd.use_intents@[k].1 as usize, gen: 0 },
                    },
                ),
        forall|k: int|
                #![trigger sd.drop_intents@[k]]
                0 <= k < sd.drop_intents@.len() && (forall|k2: int|
                    k < k2 < sd.drop_intents@.len() ==> sd.drop_intents@[k2].0
                        != sd.drop_intents@[k].0) && !is_helper_key(
                    *sd,
                    sd.drop_intents@[k].0 as int,
                ) ==> world.drop_intents@[sd.drop_intents@[k].0 as int] == Some(
                    WantsToDropItem {
                        item: Entity { index: sd.drop_intents@[k].1 as usize, gen: 0 },
                    },
                ),
        forall|k: int|
                #![trigger sd.pickup_intents@[k]]
                0 <= k < sd.pickup_intents@.len() && (forall|k2: int|
                    k < k2 < sd.pickup_intents@.len() ==> sd.pickup_intents@[k2].0
                        != sd.pickup_intents@[k].0) && !is_helper_key(
                    *sd,
                    sd.pickup_intents@[k].0 as int,
                ) ==> world.pickup_intents@[sd.pickup_intents@[k].0 as int] == Some(
                    WantsToPickupItem {
                        collected_by: Entity { index: sd.pickup_intents@[k].1 as usize, gen: 0 },
                        item: Entity { index: sd.pickup_intents@[k].2 as usize, gen: 0 },
                    },
                ),
        forall|id: int|
                #![trigger world.markers@[id]]
                0 <= id < world.n() && !is_helper_key(*sd, id) ==> world.markers@[id]
                    == Some(SerializeMe {  }),
        forall|id: int|
                #![trigger world.slots@[id]]
                0 <= id < world.n() && !is_helper_key(*sd, id) ==> world.present_at(id)
                    && world.slots@[id].gen == 0,
{
    let mut world = World::new();
    let mut c: usize = 0;
    while c < count
        invariant
            world.wf(),
            world.n() == c,
            c <= count,
            forall|j: int|
                #![trigger world.slots@[j]]
                0 <= j < c ==> world.slots@[j].state is Alive && world.slots@[j].gen == 0
                    && world.no_comps_at(j),
        decreases count - c,
    {
        let ghost pre = world;
        let e = world.create();
        proof {
            assert(e.index == pre.n()) by {
                if e.index < pre.n() {
                    assert(pre.slots@[e.index as int].state is Free);
                }
            }
            assert(world.alive(e));
            assert forall|j: int| 0 <= j < c + 1 implies world.slots@[j].state is Alive
                && world.slots@[j].gen == 0 && world.no_comps_at(j) by {
                if j < c {
                    assert(World::comps_eq_at(pre, world, j));
                    assert(world.slots@[j] == pre.slots@[j]);
                    assert(pre.no_comps_at(j));
                }
            }
        }
        c = c + 1;
    }
    proof {
        assert(forall|t: int|
            0 <= t < sd.names@.len() ==> #[trigger] sd.names@[t].0 < count);
        assert(forall|t: int|
            0 <= t < sd.combat_stats@.len() ==> #[trigger] sd.combat_stats@[t].0 < count);
        assert(forall|t: int|
            0 <= t < sd.backpacks@.len() ==> #[trigger] sd.backpacks@[t].0 < count
                && sd.backpacks@[t].1 < count);
        assert(forall|t: int|
            0 <= t < sd.melee_intents@.len() ==> #[trigger] sd.melee_intents@[t].0 < count
                && sd.melee_intents@[t].1 < count);
    }
    attach_positions(&mut world, &sd.positions, count);
    attach_renderables(&mut world, &sd.renderables, count);
    attach_viewshed_table(&mut world, &sd.viewsheds, count);
    attach_suffering_table(&mut world, &sd.suffering, count);
    attach_ranged_table(&mut world, &sd.ranged, count);
    attach_inflicts_table(&mut world, &sd.inflicts, count);
    attach_healing_table(&mut world, &sd.healing, count);
    attach_player_tags(&mut world, &sd.players, count);
    attach_monster_tags(&mut world, &sd.monsters, count);
    attach_blocker_tags(&mut world, &sd.blockers, count);
    attach_item_tags(&mut world, &sd.items, count);
    attach_consumable_tags(&mut world, &sd.consumables, count);
    attach_use_table(&mut world, &sd.use_intents, count);
    attach_drop_table(&mut world, &sd.drop_intents, count);
    attach_pickup_table(&mut world, &sd.pickup_intents, count);
    let all_ids: Vec<u64> = all_fresh_ids(count);
    attach_marker_tags(&mut world, &all_ids, count);
    attach_names(&mut world, &sd.names, count);
    attach_stats(&mut world, &sd.combat_stats, count);
    attach_backpacks(&mut world, &sd.backpacks, count);
    attach_melee(&mut world, &sd.melee_intents, count);
    let ghost wl = world;
    let mut h: usize = 0;
    let hn = sd.helpers.len();
    while h < hn
        invariant
            world.wf(),
            world.n() == count,
            hn == sd.helpers@.len(),
            h <= hn,
            forall|t: int| 0 <= t < hn ==> #[trigger] sd.helpers@[t].0 < count,
            forall|j: int|
                #![trigger world.slots@[j]]
                0 <= j < count && !(exists|t: int| 0 <= t < h && sd.helpers@[t].0 == j)
                    ==> world.slots@[j] == wl.slots@[j],
            forall|j: int|
                #![trigger world.slots@[j]]
                0 <= j < count ==> world.slots@[j].gen == wl.slots@[j].gen && !(world.slots@[j].state
                    is Free),
            world.positions@ == wl.positions@,
            world.renderables@ == wl.renderables@,
            world.names@ == wl.names@,
            world.blockers@ == wl.blockers@,
            world.items@ == wl.items@,
            world.backpacks@ == wl.backpacks@,
            world.pickup_intents@ == wl.pickup_intents@,
            world.healing@ == wl.healing@,
            world.consumables@ == wl.consumables@,
            world.use_intents@ == wl.use_intents@,
            world.drop_intents@ == wl.drop_intents@,
            world.speeds@ == wl.speeds@,
            world.combat_stats@ == wl.combat_stats@,
            world.melee_intents@ == wl.melee_intents@,
            world.ranged@ == wl.ranged@,
            world.inflicts@ == wl.inflicts@,
            world.suffering@ == wl.suffering@,
            world.players@ == wl.players@,
            world.viewsheds@ == wl.viewsheds@,
            world.monsters@ == wl.monsters@,
            world.markers@ == wl.markers@,
            world.helpers@ == wl.helpers@,
        decreases hn - h,
    {
        let ghost pre = world;
        let id = sd.helpers[h].0 as usize;
        let g = world.slots[id].gen;
        world.destroy(Entity { index: id, gen: g });
        proof {
            assert forall|j: int|
                0 <= j < count && !(exists|t: int| 0 <= t < h + 1 && sd.helpers@[t].0 == j)
                implies world.slots@[j] == wl.slots@[j] by {
                assert(sd.helpers@[h as int].0 != j);
                assert(pre.slots@[j] == wl.slots@[j]);
            }
        }
        h = h + 1;
    }
    let ghost wd = world;
    world.maintain();
    proof {
        assert forall|j: int|
            #![trigger world.slots@[j]]
            0 <= j < count && !is_helper_key(*sd, j) implies world.present_at(j)
            && world.slots@[j].gen == 0 && World::comps_eq_at(wl, world, j) by {
            assert(wd.slots@[j] == wl.slots@[j]);
            assert(!(wd.slots@[j].state is Dying));
            assert(World::comps_eq_at(wd, world, j));
        }
        assert forall|k: int|
            #![trigger sd.positions@[k]]
            0 <= k < sd.positions@.len() && (forall|k2: int|
                k < k2 < sd.positions@.len() ==> sd.positions@[k2].0 != sd.positions@[k].0) && !is_helper_key(
                *sd,
                sd.positions@[k].0 as int,
            ) implies world.positions@[sd.positions@[k].0 as int] == Some(sd.positions@[k].1) by {
            let id = sd.positions@[k].0 as int;
            assert(world.slots@[id].gen == wl.slots@[id].gen);
            assert(World::comps_eq_at(wl, world, id));
        }
        assert forall|k: int|
            #![trigger sd.renderables@[k]]
            0 <= k < sd.renderables@.len() && (forall|k2: int|
                k < k2 < sd.renderables@.len() ==> sd.renderables@[k2].0 != sd.renderables@[k].0) && !is_helper_key(
                *sd,
                sd.renderables@[k].0 as int,
            ) implies world.renderables@[sd.renderables@[k].0 as int] == Some(sd.renderables@[k].1) by {
            let id = sd.renderables@[k].0 as int;
            assert(world.slots@[id].gen == wl.slots@[id].gen);
            assert(World::comps_eq_at(wl, world, id));
        }
        assert forall|k: int|
            #![trigger sd.ranged@[k]]
            0 <= k < sd.ranged@.len() && (forall|k2: int|
                k < k2 < sd.ranged@.len() ==> sd.ranged@[k2].0 != sd.ranged@[k].0) && !is_helper_key(
                *sd,
                sd.ranged@[k].0 as int,
            ) implies world.ranged@[sd.ranged@[k].0 as int] == Some(sd.ranged@[k].1) by {
            let id = sd.ranged@[k].0 as int;
            assert(world.slots@[id].gen == wl.slots@[id].gen);
            assert(World::comps_eq_at(wl, world, id));
        }
        assert forall|k: int|
            #![trigger sd.inflicts@[k]]
            0 <= k < sd.inflicts@.len() && (forall|k2: int|
                k < k2 < sd.inflicts@.len() ==> sd.inflicts@[k2].0 != sd.inflicts@[k].0) && !is_helper_key(
                *sd,
                sd.inflicts@[k].0 as int,
            ) implies world.inflicts@[sd.inflicts@[k].0 as int] == Some(sd.inflicts@[k].1) by {
            let id = sd.inflicts@[k].0 as int;
            assert(world.slots@[id].gen == wl.slots@[id].gen);
            assert(World::comps_eq_at(wl, world, id));
        }
        assert forall|k: int|
            #![trigger sd.healing@[k]]
            0 <= k < sd.healing@.len() && (forall|k2: int|
                k < k2 < sd.healing@.len() ==> sd.healing@[k2].0 != sd.healing@[k].0) && !is_helper_key(
                *sd,
                sd.healing@[k].0 as int,
            ) implies world.healing@[sd.healing@[k].0 as int] == Some(sd.healing@[k].1) by {
            let id = sd.healing@[k].0 as int;
            assert(world.slots@[id].gen == wl.slots@[id].gen);
            assert(World::comps_eq_at(wl, world, id));
        }
        assert forall|k: int|
            #![trigger sd.viewsheds@[k]]
            0 <= k < sd.viewsheds@.len() && (forall|k2: int|
                k < k2 < sd.viewsheds@.len() ==> sd.viewsheds@[k2].0 != sd.viewsheds@[k].0)
                && !is_helper_key(*sd, sd.viewsheds@[k].0 as int) implies (
        world.viewsheds@[sd.viewsheds@[k].0 as int] matches Some(v) && v.range
            == sd.viewsheds@[k].1.range && v.dirty == sd.viewsheds@[k].1.dirty && v.visible_tiles@
            == sd.viewsheds@[k].1.visible_tiles@) by {
            let id = sd.viewsheds@[k].0 as int;
            assert(world.slots@[id].gen == wl.slots@[id].gen);
            assert(World::comps_eq_at(wl, world, id));
        }
        assert forall|k: int|
            #![trigger sd.suffering@[k]]
            0 <= k < sd.suffering@.len() && (forall|k2: int|
                k < k2 < sd.suffering@.len() ==> sd.suffering@[k2].0 != sd.suffering@[k].0)
                && !is_helper_key(*sd, sd.suffering@[k].0 as int) implies (
        world.suffering@[sd.suffering@[k].0 as int] matches Some(s) && s.amount@
            == sd.suffering@[k].1.amount@) by {
            let id = sd.suffering@[k].0 as int;
            assert(world.slots@[id].gen == wl.slots@[id].gen);
            assert(World::comps_eq_at(wl, world, id));
        }
        assert forall|k: int|
            0 <= k < sd.players@.len() && !is_helper_key(*sd, #[trigger] sd.players@[k] as int)
            implies world.players@[sd.players@[k] as int] == Some(Player {  }) by {
            let id = sd.players@[k] as int;
            assert(world.slots@[id].gen == wl.slots@[id].gen);
            assert(World::comps_eq_at(wl, world, id));
        }
        assert forall|k: int|
            0 <= k < sd.monsters@.len() && !is_helper_key(*sd, #[trigger] sd.monsters@[k] as int)
            implies world.monsters@[sd.monsters@[k] as int] == Some(Monster {  }) by {
            let id = sd.monsters@[k] as int;
            assert(world.slots@[id].gen == wl.slots@[id].gen);
            assert(World::comps_eq_at(wl, world, id));
        }
        assert forall|k: int|
            0 <= k < sd.blockers@.len() && !is_helper_key(*sd, #[trigger] sd.blockers@[k] as int)
            implies world.blockers@[sd.blockers@[k] as int] == Some(BlocksTile {  }) by {
            let id = sd.blockers@[k] as int;
            assert(world.slots@[id].gen == wl.slots@[id].gen);
            assert(World::comps_eq_at(wl, world, id));
        }
        assert forall|k: int|
            0 <= k < sd.items@.len() && !is_helper_key(*sd, #[trigger] sd.items@[k] as int)
            implies world.items@[sd.items@[k] as int] == Some(Item {  }) by {
            let id = sd.items@[k] as int;
            assert(world.slots@[id].gen == wl.slots@[id].gen);
            assert(World::comps_eq_at(wl, world, id));
        }
        assert forall|k: int|
            0 <= k < sd.consumables@.len() && !is_helper_key(*sd, #[trigger] sd.consumables@[k] as int)
            implies world.consumables@[sd.consumables@[k] as int] == Some(Consumable {  }) by {
            let id = sd.consumables@[k] as int;
            assert(world.slots@[id].gen == wl.slots@[id].gen);
            assert(World::comps_eq_at(wl, world, id));
        }
        assert forall|k: int|
            #![trigger sd.use_intents@[k]]
            0 <= k < sd.use_intents@.len() && (forall|k2: int|
                k < k2 < sd.use_intents@.len() ==> sd.use_intents@[k2].0 != sd.use_intents@[k].0) && !is_helper_key(
                *sd,
                sd.use_intents@[k].0 as int,
            ) implies world.use_intents@[sd.use_intents@[k].0 as int] == Some(WantsToUseItem { item: Entity { index: sd.use_intents@[k].1 as usize, gen: 0 } }) by {
            let id = sd.use_intents@[k].0 as int;
            assert(world.slots@[id].gen == wl.slots@[id].gen);
            assert(World::comps_eq_at(wl, world, id));
        }
        assert forall|k: int|
            #![trigger sd.drop_intents@[k]]
            0 <= k < sd.drop_intents@.len() && (forall|k2: int|
                k < k2 < sd.drop_intents@.len() ==> sd.drop_intents@[k2].0 != sd.drop_intents@[k].0) && !is_helper_key(
                *sd,
                sd.drop_intents@[k].0 as int,
            ) implies world.drop_intents@[sd.drop_intents@[k].0 as int] == Some(WantsToDropItem { item: Entity { index: sd.drop_intents@[k].1 as usize, gen: 0 } }) by {
            let id = sd.drop_intents@[k].0 as int;
            assert(world.slots@[id].gen == wl.slots@[id].gen);
            assert(World::comps_eq_at(wl, world, id));
        }
        assert forall|k: int|
            #![trigger sd.pickup_intents@[k]]
            0 <= k < sd.pickup_intents@.len() && (forall|k2: int|
                k < k2 < sd.pickup_intents@.len() ==> sd.pickup_intents@[k2].0
                    != sd.pickup_intents@[k].0) && !is_helper_key(
                *sd,
                sd.pickup_intents@[k].0 as int,
            ) implies world.pickup_intents@[sd.pickup_intents@[k].0 as int] == Some(
            WantsToPickupItem {
                collected_by: Entity { index: sd.pickup_intents@[k].1 as usize, gen: 0 },
                item: Entity { index: sd.pickup_intents@[k].2 as usize, gen: 0 },
            },
        ) by {
            let id = sd.pickup_intents@[k].0 as int;
            assert(world.slots@[id].gen == wl.slots@[id].gen);
            assert(World::comps_eq_at(wl, world, id));
        }
        assert forall|id: int|
            #![trigger world.markers@[id]]
            0 <= id < world.n() && !is_helper_key(*sd, id) implies world.markers@[id] == Some(
            SerializeMe {  },
        ) by {
            assert(all_ids@[id] == id);
            assert(world.slots@[id].gen == wl.slots@[id].gen);
            assert(World::comps_eq_at(wl, world, id));
        }
        assert forall|k: int|
            #![trigger sd.names@[k]]
            0 <= k < sd.names@.len() && last_name_row(*sd, k) && !is_helper_key(
                *sd,
                sd.names@[k].0 as int,
            ) implies sd.names@[k].0 < world.n() && world.present_at(sd.names@[k].0 as int) && (
        world.names@[sd.names@[k].0 as int] matches Some(nm) && nm.name@ == sd.names@[k].1.name@)
            && world.slots@[sd.names@[k].0 as int].gen == 0 by {
            let id = sd.names@[k].0 as int;
            assert(world.slots@[id].gen == wl.slots@[id].gen);
            assert(World::comps_eq_at(wl, world, id));
        }
        assert forall|k: int|
            #![trigger sd.combat_stats@[k]]
            0 <= k < sd.combat_stats@.len() && last_stats_row(*sd, k) && !is_helper_key(
                *sd,
                sd.combat_stats@[k].0 as int,
            ) implies sd.combat_stats@[k].0 < world.n() && world.present_at(
            sd.combat_stats@[k].0 as int,
        ) && world.combat_stats@[sd.combat_stats@[k].0 as int] == Some(sd.combat_stats@[k].1)
            && world.slots@[sd.combat_stats@[k].0 as int].gen == 0 by {
            let id = sd.combat_stats@[k].0 as int;
            assert(world.slots@[id].gen == wl.slots@[id].gen);
            assert(World::comps_eq_at(wl, world, id));
        }
        assert forall|k: int|
            #![trigger sd.backpacks@[k]]
            0 <= k < sd.backpacks@.len() && last_backpack_row(*sd, k) && !is_helper_key(
                *sd,
                sd.backpacks@[k].0 as int,
            ) implies sd.backpacks@[k].0 < world.n() && world.backpacks@[sd.backpacks@[k].0 as int]
            == Some(
            InBackpack { owner: Entity { index: sd.backpacks@[k].1 as usize, gen: 0 } },
        ) by {
            let id = sd.backpacks@[k].0 as int;
            assert(world.slots@[id].gen == wl.slots@[id].gen);
            assert(World::comps_eq_at(wl, world, id));
        }
        assert forall|k: int|
            #![trigger sd.melee_intents@[k]]
            0 <= k < sd.melee_intents@.len() && last_melee_row(*sd, k) && !is_helper_key(
                *sd,
                sd.melee_intents@[k].0 as int,
            ) implies sd.melee_intents@[k].0 < world.n() && world.melee_intents@[
            sd.melee_intents@[k].0 as int
        ] == Some(
            WantsToMelee { target: Entity { index: sd.melee_intents@[k].1 as usize, gen: 0 } },
        ) by {
            let id = sd.melee_intents@[k].0 as int;
            assert(world.slots@[id].gen == wl.slots@[id].gen);
            assert(World::comps_eq_at(wl, world, id));
        }
    }

    world
}

pub fn load_game(sd: &SaveData) -> (r: Result<LoadedGame, LoadError>)
    ensures
        sd.helpers@.len() == 0 ==> r == Result::<LoadedGame, LoadError>::Err(
            LoadError::NoMapRecord,
        ),
        // success is owed exactly when there is a map record and every id
        // fits a slot index
        r is Ok <==> (sd.helpers@.len() >= 1 && ids_fit(*sd)),
        r matches Ok(lg) ==> {
            &&& lg.world.wf()
            &&& sd.helpers@.len() >= 1
            &&& GameMap::congruent(lg.map, sd.helpers@.last().1)
            &&& loaded_world_ok(*sd, lg.world)
        },
{
    if sd.helpers.len() == 0 {
        return Err(LoadError::NoMapRecord);
    }
    let mpos = max_key_vtab(&sd.positions);
    let mren = max_key_vtab(&sd.renderables);
    let mnam = max_key_vtab(&sd.names);
    let mvis = max_key_vtab(&sd.viewsheds);
    let mcs = max_key_vtab(&sd.combat_stats);
    let msuf = max_key_vtab(&sd.suffering);
    let mrng = max_key_vtab(&sd.ranged);
    let minf = max_key_vtab(&sd.inflicts);
    let mheal = max_key_vtab(&sd.healing);
    let mpl = max_key_tag(&sd.players);
    let mmon = max_key_tag(&sd.monsters);
    let mblk = max_key_tag(&sd.blockers);
    let mit = max_key_tag(&sd.items);
    let mcon = max_key_tag(&sd.consumables);
    let mbp = max_key_refs(&sd.backpacks);
    let mmel = max_key_refs(&sd.melee_intents);
    let muse = max_key_refs(&sd.use_intents);
    let mdrp = max_key_refs(&sd.drop_intents);
    let mpk = max_key_refs3(&sd.pickup_intents);
    let mhlp = max_key_vtab(&sd.helpers);
    let m = max2(
        max2(max2(max2(mpos, mren), max2(mnam, mvis)), max2(max2(mcs, msuf), max2(mrng, minf))),
        max2(
            max2(max2(mheal, mpl), max2(max2(mmon, mblk), max2(mit, mcon))),
            max2(max2(mbp, mmel), max2(max2(muse, mdrp), max2(mpk, mhlp))),
        ),
    );
    if m >= usize::MAX as u64 {
        proof {
            assert(!ids_fit(*sd)) by {
                assert(m != 0);
                if m == mpos {
                let k = choose|k: int| 0 <= k < sd.positions@.len() && #[trigger] sd.positions@[k].0 == mpos;
                assert(sd.positions@[k].0 >= usize::MAX);
            } else if m == mren {
                let k = choose|k: int| 0 <= k < sd.renderables@.len() && #[trigger] sd.renderables@[k].0 == mren;
                assert(sd.renderables@[k].0 >= usize::MAX);
            } else if m == mnam {
                let k = choose|k: int| 0 <= k < sd.names@.len() && #[trigger] sd.names@[k].0 == mnam;
                assert(sd.names@[k].0 >= usize::MAX);
            } else if m == mvis {
                let k = choose|k: int| 0 <= k < sd.viewsheds@.len() && #[trigger] sd.viewsheds@[k].0 == mvis;
                assert(sd.viewsheds@[k].0 >= usize::MAX);
            } else if m == mcs {
                let k = choose|k: int| 0 <= k < sd.combat_stats@.len() && #[trigger] sd.combat_stats@[k].0 == mcs;
                assert(sd.combat_stats@[k].0 >= usize::MAX);
            } else if m == msuf {
                let k = choose|k: int| 0 <= k < sd.suffering@.len() && #[trigger] sd.suffering@[k].0 == msuf;
                assert(sd.suffering@[k].0 >= usize::MAX);
            } else if m == mrng {
                let k = choose|k: int| 0 <= k < sd.ranged@.len() && #[trigger] sd.ranged@[k].0 == mrng;
                assert(sd.ranged@[k].0 >= usize::MAX);
            } else if m == minf {
                let k = choose|k: int| 0 <= k < sd.inflicts@.len() && #[trigger] sd.inflicts@[k].0 == minf;
                assert(sd.inflicts@[k].0 >= usize::MAX);
            } else if m == mheal {
                let k = choose|k: int| 0 <= k < sd.healing@.len() && #[trigger] sd.healing@[k].0 == mheal;
                assert(sd.healing@[k].0 >= usize::MAX);
            } else if m == mpl {
                let k = choose|k: int| 0 <= k < sd.players@.len() && #[trigger] sd.players@[k] == mpl;
                assert(sd.players@[k] >= usize::MAX);
            } else if m == mmon {
                let k = choose|k: int| 0 <= k < sd.monsters@.len() && #[trigger] sd.monsters@[k] == mmon;
                assert(sd.monsters@[k] >= usize::MAX);
            } else if m == mblk {
                let k = choose|k: int| 0 <= k < sd.blockers@.len() && #[trigger] sd.blockers@[k] == mblk;
                assert(sd.blockers@[k] >= usize::MAX);
            } else if m == mit {
                let k = choose|k: int| 0 <= k < sd.items@.len() && #[trigger] sd.items@[k] == mit;
                assert(sd.items@[k] >= usize::MAX);
            } else if m == mcon {
                let k = choose|k: int| 0 <= k < sd.consumables@.len() && #[trigger] sd.consumables@[k] == mcon;
                assert(sd.consumables@[k] >= usize::MAX);
            } else if m == mbp {
                let k = choose|k: int|
                    #![trigger sd.backpacks@[k]]
                    0 <= k < sd.backpacks@.len() && (sd.backpacks@[k].0 == mbp || sd.backpacks@[k].1 == mbp);
                assert(sd.backpacks@[k].0 >= usize::MAX || sd.backpacks@[k].1 >= usize::MAX);
            } else if m == mmel {
                let k = choose|k: int|
                    #![trigger sd.melee_intents@[k]]
                    0 <= k < sd.melee_intents@.len() && (sd.melee_intents@[k].0 == mmel || sd.melee_intents@[k].1 == mmel);
                assert(sd.melee_intents@[k].0 >= usize::MAX || sd.melee_intents@[k].1 >= usize::MAX);
            } else if m == muse {
                let k = choose|k: int|
                    #![trigger sd.use_intents@[k]]
                    0 <= k < sd.use_intents@.len() && (sd.use_intents@[k].0 == muse || sd.use_intents@[k].1 == muse);
                assert(sd.use_intents@[k].0 >= usize::MAX || sd.use_intents@[k].1 >= usize::MAX);
            } else if m == mdrp {
                let k = choose|k: int|
                    #![trigger sd.drop_intents@[k]]
                    0 <= k < sd.drop_intents@.len() && (sd.drop_intents@[k].0 == mdrp || sd.drop_intents@[k].1 == mdrp);
                assert(sd.drop_intents@[k].0 >= usize::MAX || sd.drop_intents@[k].1 >= usize::MAX);
            } else if m == mpk {
                let k = choose|k: int|
                    #![trigger sd.pickup_intents@[k]]
                    0 <= k < sd.pickup_intents@.len() && (sd.pickup_intents@[k].0 == mpk || sd.pickup_intents@[k].1 == mpk
                        || sd.pickup_intents@[k].2 == mpk);
                assert(sd.pickup_intents@[k].0 >= usize::MAX || sd.pickup_intents@[k].1 >= usize::MAX
                    || sd.pickup_intents@[k].2 >= usize::MAX);
            } else if m == mhlp {
                let k = choose|k: int| 0 <= k < sd.helpers@.len() && #[trigger] sd.helpers@[k].0 == mhlp;
                assert(sd.helpers@[k].0 >= usize::MAX);
            }
            }
        }
        return Err(LoadError::TooManyEntities);
    }
    let count: usize = m as usize + 1;
    proof {
        assert forall|t: int|
            0 <= t < sd.backpacks@.len() implies #[trigger] sd.backpacks@[t].0 < count
            && sd.backpacks@[t].1 < count by {
            assert(sd.backpacks@[t].0 <= mbp && sd.backpacks@[t].1 <= mbp);
        }
        assert forall|t: int|
            0 <= t < sd.melee_intents@.len() implies #[trigger] sd.melee_intents@[t].0 < count
            && sd.melee_intents@[t].1 < count by {
            assert(sd.melee_intents@[t].0 <= mmel && sd.melee_intents@[t].1 <= mmel);
        }
        assert forall|t: int|
            0 <= t < sd.use_intents@.len() implies #[trigger] sd.use_intents@[t].0 < count
            && sd.use_intents@[t].1 < count by {
            assert(sd.use_intents@[t].0 <= muse && sd.use_intents@[t].1 <= muse);
        }
        assert forall|t: int|
            0 <= t < sd.drop_intents@.len() implies #[trigger] sd.drop_intents@[t].0 < count
            && sd.drop_intents@[t].1 < count by {
            assert(sd.drop_intents@[t].0 <= mdrp && sd.drop_intents@[t].1 <= mdrp);
        }
        assert forall|t: int|
            0 <= t < sd.pickup_intents@.len() implies #[trigger] sd.pickup_intents@[t].0 < count
            && sd.pickup_intents@[t].1 < count && sd.pickup_intents@[t].2 < count by {
            assert(sd.pickup_intents@[t].0 <= mpk && sd.pickup_intents@[t].1 <= mpk
                && sd.pickup_intents@[t].2 <= mpk);
        }
        assert forall|t: int|
            0 <= t < sd.helpers@.len() implies #[trigger] sd.helpers@[t].0 < count by {
            assert(sd.helpers@[t].0 <= mhlp);
        }
        assert(ids_fit(*sd)) by {
            assert forall|t: int|
                0 <= t < sd.positions@.len() implies (#[trigger] sd.positions@[t].0)
                < usize::MAX by {
                assert(sd.positions@[t].0 <= mpos);
            }
            assert forall|t: int|
                0 <= t < sd.renderables@.len() implies (#[trigger] sd.renderables@[t].0)
                < usize::MAX by {
                assert(sd.renderables@[t].0 <= mren);
            }
            assert forall|t: int|
                0 <= t < sd.names@.len() implies (#[trigger] sd.names@[t].0) < usize::MAX by {
                assert(sd.names@[t].0 <= mnam);
            }
            assert forall|t: int|
                0 <= t < sd.viewsheds@.len() implies (#[trigger] sd.viewsheds@[t].0)
                < usize::MAX by {
                assert(sd.viewsheds@[t].0 <= mvis);
            }
            assert forall|t: int|
                0 <= t < sd.combat_stats@.len() implies (#[trigger] sd.combat_stats@[t].0)
                < usize::MAX by {
                assert(sd.combat_stats@[t].0 <= mcs);
            }
            assert forall|t: int|
                0 <= t < sd.suffering@.len() implies (#[trigger] sd.suffering@[t].0)
                < usize::MAX by {
                assert(sd.suffering@[t].0 <= msuf);
            }
            assert forall|t: int|
                0 <= t < sd.ranged@.len() implies (#[trigger] sd.ranged@[t].0) < usize::MAX by {
                assert(sd.ranged@[t].0 <= mrng);
            }
            assert forall|t: int|
                0 <= t < sd.inflicts@.len() implies (#[trigger] sd.inflicts@[t].0)
                < usize::MAX by {
                assert(sd.inflicts@[t].0 <= minf);
            }
            assert forall|t: int|
                0 <= t < sd.healing@.len() implies (#[trigger] sd.healing@[t].0) < usize::MAX by {
                assert(sd.healing@[t].0 <= mheal);
            }
            assert forall|t: int|
                0 <= t < sd.players@.len() implies (#[trigger] sd.players@[t]) < usize::MAX by {
                assert(sd.players@[t] <= mpl);
            }
            assert forall|t: int|
                0 <= t < sd.monsters@.len() implies (#[trigger] sd.monsters@[t]) < usize::MAX by {
                assert(sd.monsters@[t] <= mmon);
            }
            assert forall|t: int|
                0 <= t < sd.blockers@.len() implies (#[trigger] sd.blockers@[t]) < usize::MAX by {
                assert(sd.blockers@[t] <= mblk);
            }
            assert forall|t: int|
                0 <= t < sd.items@.len() implies (#[trigger] sd.items@[t]) < usize::MAX by {
                assert(sd.items@[t] <= mit);
            }
            assert forall|t: int|
                0 <= t < sd.consumables@.len() implies (#[trigger] sd.consumables@[t])
                < usize::MAX by {
                assert(sd.consumables@[t] <= mcon);
            }
            assert(usize::MAX as u64 > m);
        }
    }
    let world = load_world(sd, count);
    let restored = sd.helpers[sd.helpers.len() - 1].1.duplicate();
    proof {
        assert(loaded_world_ok(*sd, world));
    }
    Ok(LoadedGame { world, map: restored })
}


/// Attaches the positions table; with duplicate keys the last row wins.
fn attach_positions(world: &mut World, rows: &Vec<(u64, Position)>, count: usize)
    requires
        old(world).wf(),
        old(world).n() == count,
        forall|t: int| 0 <= t < rows@.len() ==> #[trigger] rows@[t].0 < count,
        forall|j: int|
            #![trigger old(world).slots@[j]]
            0 <= j < count ==> !(old(world).slots@[j].state is Free),
    ensures
        final(world).wf(),
        final(world).n() == count,
        final(world).slots@ == old(world).slots@,
        final(world).renderables@ == old(world).renderables@,
        final(world).names@ == old(world).names@,
        final(world).blockers@ == old(world).blockers@,
        final(world).items@ == old(world).items@,
        final(world).backpacks@ == old(world).backpacks@,
        final(world).pickup_intents@ == old(world).pickup_intents@,
        final(world).healing@ == old(world).healing@,
        final(world).consumables@ == old(world).consumables@,
        final(world).use_intents@ == old(world).use_intents@,
        final(world).drop_intents@ == old(world).drop_intents@,
        final(world).speeds@ == old(world).speeds@,
        final(world).combat_stats@ == old(world).combat_stats@,
        final(world).melee_intents@ == old(world).melee_intents@,
        final(world).ranged@ == old(world).ranged@,
        final(world).inflicts@ == old(world).inflicts@,
        final(world).suffering@ == old(world).suffering@,
        final(world).players@ == old(world).players@,
        final(world).viewsheds@ == old(world).viewsheds@,
        final(world).monsters@ == old(world).monsters@,
        final(world).markers@ == old(world).markers@,
        final(world).helpers@ == old(world).helpers@,
        forall|t: int|
            #![trigger rows@[t]]
            0 <= t < rows@.len() && (forall|t2: int| t < t2 < rows@.len() ==> rows@[t2].0
                != rows@[t].0) ==> final(world).positions@[rows@[t].0 as int] == Some(rows@[t].1),
{
    let tn = rows.len();
    let mut k: usize = 0;
    while k < tn
        invariant
            world.wf(),
            world.n() == count,
            tn == rows@.len(),
            k <= tn,
            forall|t: int| 0 <= t < tn ==> #[trigger] rows@[t].0 < count,
            forall|j: int|
                #![trigger world.slots@[j]]
                0 <= j < count ==> !(world.slots@[j].state is Free),
            world.slots@ == old(world).slots@,
            world.renderables@ == old(world).renderables@,
            world.names@ == old(world).names@,
            world.blockers@ == old(world).blockers@,
            world.items@ == old(world).items@,
            world.backpacks@ == old(world).backpacks@,
            world.pickup_intents@ == old(world).pickup_intents@,
            world.healing@ == old(world).healing@,
            world.consumables@ == old(world).consumables@,
            world.use_intents@ == old(world).use_intents@,
            world.drop_intents@ == old(world).drop_intents@,
            world.speeds@ == old(world).speeds@,
            world.combat_stats@ == old(world).combat_stats@,
            world.melee_intents@ == old(world).melee_intents@,
            world.ranged@ == old(world).ranged@,
            world.inflicts@ == old(world).inflicts@,
            world.suffering@ == old(world).suffering@,
            world.players@ == old(world).players@,
            world.viewsheds@ == old(world).viewsheds@,
            world.monsters@ == old(world).monsters@,
            world.markers@ == old(world).markers@,
            world.helpers@ == old(world).helpers@,
            forall|t: int|
                #![trigger rows@[t]]
                0 <= t < k && (forall|t2: int| t < t2 < k ==> rows@[t2].0 != rows@[t].0)
                    ==> world.positions@[rows@[t].0 as int] == Some(rows@[t].1),
        decreases tn - k,
    {
        let ghost pre = *world;
        let id = rows[k].0 as usize;
        world.positions.set(id, Some(rows[k].1));
        proof {
            assert forall|j: int|
                0 <= j < world.n() && world.slots@[j].state is Free implies world.no_comps_at(
                j,
            ) by {
                assert(pre.no_comps_at(j));
            }
            assert forall|t: int|
                #![trigger rows@[t]]
                0 <= t < k + 1 && (forall|t2: int| t < t2 < k + 1 ==> rows@[t2].0 != rows@[t].0)
                implies world.positions@[rows@[t].0 as int] == Some(rows@[t].1) by {
                if t < k {
                    assert(rows@[t].0 != rows@[k as int].0);
                    assert(world.positions@[rows@[t].0 as int] == pre.positions@[rows@[t].0 as int]);
                }
            }
        }
        k = k + 1;
    }
}

/// Attaches the renderables table; with duplicate keys the last row wins.
fn attach_renderables(world: &mut World, rows: &Vec<(u64, Renderable)>, count: usize)
    requires
        old(world).wf(),
        old(world).n() == count,
        forall|t: int| 0 <= t < rows@.len() ==> #[trigger] rows@[t].0 < count,
        forall|j: int|
            #![trigger old(world).slots@[j]]
            0 <= j < count ==> !(old(world).slots@[j].state is Free),
    ensures
        final(world).wf(),
        final(world).n() == count,
        final(world).slots@ == old(world).slots@,
        final(world).positions@ == old(world).positions@,
        final(world).names@ == old(world).names@,
        final(world).blockers@ == old(world).blockers@,
        final(world).items@ == old(world).items@,
        final(world).backpacks@ == old(world).backpacks@,
        final(world).pickup_intents@ == old(world).pickup_intents@,
        final(world).healing@ == old(world).healing@,
        final(world).consumables@ == old(world).consumables@,
        final(world).use_intents@ == old(world).use_intents@,
        final(world).drop_intents@ == old(world).drop_intents@,
        final(world).speeds@ == old(world).speeds@,
        final(world).combat_stats@ == old(world).combat_stats@,
        final(world).melee_intents@ == old(world).melee_intents@,
        final(world).ranged@ == old(world).ranged@,
        final(world).inflicts@ == old(world).inflicts@,
        final(world).suffering@ == old(world).suffering@,
        final(world).players@ == old(world).players@,
        final(world).viewsheds@ == old(world).viewsheds@,
        final(world).monsters@ == old(world).monsters@,
        final(world).markers@ == old(world).markers@,
        final(world).helpers@ == old(world).helpers@,
        forall|t: int|
            #![trigger rows@[t]]
            0 <= t < rows@.len() && (forall|t2: int| t < t2 < rows@.len() ==> rows@[t2].0
                != rows@[t].0) ==> final(world).renderables@[rows@[t].0 as int] == Some(rows@[t].1),
{
    let tn = rows.len();
    let mut k: usize = 0;
    while k < tn
        invariant
            world.wf(),
            world.n() == count,
            tn == rows@.len(),
            k <= tn,
            forall|t: int| 0 <= t < tn ==> #[trigger] rows@[t].0 < count,
            forall|j: int|
                #![trigger world.slots@[j]]
                0 <= j < count ==> !(world.slots@[j].state is Free),
            world.slots@ == old(world).slots@,
            world.positions@ == old(world).positions@,
            world.names@ == old(world).names@,
            world.blockers@ == old(world).blockers@,
            world.items@ == old(world).items@,
            world.backpacks@ == old(world).backpacks@,
            world.pickup_intents@ == old(world).pickup_intents@,
            world.healing@ == old(world).healing@,
            world.consumables@ == old(world).consumables@,
            world.use_intents@ == old(world).use_intents@,
            world.drop_intents@ == old(world).drop_intents@,
            world.speeds@ == old(world).speeds@,
            world.combat_stats@ == old(world).combat_stats@,
            world.melee_intents@ == old(world).melee_intents@,
            world.ranged@ == old(world).ranged@,
            world.inflicts@ == old(world).inflicts@,
            world.suffering@ == old(world).suffering@,
            world.players@ == old(world).players@,
            world.viewsheds@ == old(world).viewsheds@,
            world.monsters@ == old(world).monsters@,
            world.markers@ == old(world).markers@,
            world.helpers@ == old(world).helpers@,
            forall|t: int|
                #![trigger rows@[t]]
                0 <= t < k && (forall|t2: int| t < t2 < k ==> rows@[t2].0 != rows@[t].0)
                    ==> world.renderables@[rows@[t].0 as int] == Some(rows@[t].1),
        decreases tn - k,
    {
        let ghost pre = *world;
        let id = rows[k].0 as usize;
        world.renderables.set(id, Some(rows[k].1));
        proof {
            assert forall|j: int|
                0 <= j < world.n() && world.slots@[j].state is Free implies world.no_comps_at(
                j,
            ) by {
                assert(pre.no_comps_at(j));
            }
            assert forall|t: int|
                #![trigger rows@[t]]
                0 <= t < k + 1 && (forall|t2: int| t < t2 < k + 1 ==> rows@[t2].0 != rows@[t].0)
                implies world.renderables@[rows@[t].0 as int] == Some(rows@[t].1) by {
                if t < k {
                    assert(rows@[t].0 != rows@[k as int].0);
                    assert(world.renderables@[rows@[t].0 as int] == pre.renderables@[rows@[t].0 as int]);
                }
            }
        }
        k = k + 1;
    }
}

/// Attaches the ranged_table table; with duplicate keys the last row wins.
fn attach_ranged_table(world: &mut World, rows: &Vec<(u64, Ranged)>, count: usize)
    requires
        old(world).wf(),
        old(world).n() == count,
        forall|t: int| 0 <= t < rows@.len() ==> #[trigger] rows@[t].0 < count,
        forall|j: int|
            #![trigger old(world).slots@[j]]
            0 <= j < count ==> !(old(world).slots@[j].state is Free),
    ensures
        final(world).wf(),
        final(world).n() == count,
        final(world).slots@ == old(world).slots@,
        final(world).positions@ == old(world).positions@,
        final(world).renderables@ == old(world).renderables@,
        final(world).names@ == old(world).names@,
        final(world).blockers@ == old(world).blockers@,
        final(world).items@ == old(world).items@,
        final(world).backpacks@ == old(world).backpacks@,
        final(world).pickup_intents@ == old(world).pickup_intents@,
        final(world).healing@ == old(world).healing@,
        final(world).consumables@ == old(world).consumables@,
        final(world).use_intents@ == old(world).use_intents@,
        final(world).drop_intents@ == old(world).drop_intents@,
        final(world).speeds@ == old(world).speeds@,
        final(world).combat_stats@ == old(world).combat_stats@,
        final(world).melee_intents@ == old(world).melee_intents@,
        final(world).inflicts@ == old(world).inflicts@,
        final(world).suffering@ == old(world).suffering@,
        final(world).players@ == old(world).players@,
        final(world).viewsheds@ == old(world).viewsheds@,
        final(world).monsters@ == old(world).monsters@,
        final(world).markers@ == old(world).markers@,
        final(world).helpers@ == old(world).helpers@,
        forall|t: int|
            #![trigger rows@[t]]
            0 <= t < rows@.len() && (forall|t2: int| t < t2 < rows@.len() ==> rows@[t2].0
                != rows@[t].0) ==> final(world).ranged@[rows@[t].0 as int] == Some(rows@[t].1),
{
    let tn = rows.len();
    let mut k: usize = 0;
    while k < tn
        invariant
            world.wf(),
            world.n() == count,
            tn == rows@.len(),
            k <= tn,
            forall|t: int| 0 <= t < tn ==> #[trigger] rows@[t].0 < count,
            forall|j: int|
                #![trigger world.slots@[j]]
                0 <= j < count ==> !(world.slots@[j].state is Free),
            world.slots@ == old(world).slots@,
            world.positions@ == old(world).positions@,
            world.renderables@ == old(world).renderables@,
            world.names@ == old(world).names@,
            world.blockers@ == old(world).blockers@,
            world.items@ == old(world).items@,
            world.backpacks@ == old(world).backpacks@,
            world.pickup_intents@ == old(world).pickup_intents@,
            world.healing@ == old(world).healing@,
            world.consumables@ == old(world).consumables@,
            world.use_intents@ == old(world).use_intents@,
            world.drop_intents@ == old(world).drop_intents@,
            world.speeds@ == old(world).speeds@,
            world.combat_stats@ == old(world).combat_stats@,
            world.melee_intents@ == old(world).melee_intents@,
            world.inflicts@ == old(world).inflicts@,
            world.suffering@ == old(world).suffering@,
            world.players@ == old(world).players@,
            world.viewsheds@ == old(world).viewsheds@,
            world.monsters@ == old(world).monsters@,
            world.markers@ == old(world).markers@,
            world.helpers@ == old(world).helpers@,
            forall|t: int|
                #![trigger rows@[t]]
                0 <= t < k && (forall|t2: int| t < t2 < k ==> rows@[t2].0 != rows@[t].0)
                    ==> world.ranged@[rows@[t].0 as int] == Some(rows@[t].1),
        decreases tn - k,
    {
        let ghost pre = *world;
        let id = rows[k].0 as usize;
        world.ranged.set(id, Some(rows[k].1));
        proof {
            assert forall|j: int|
                0 <= j < world.n() && world.slots@[j].state is Free implies world.no_comps_at(
                j,
            ) by {
                assert(pre.no_comps_at(j));
            }
            assert forall|t: int|
                #![trigger rows@[t]]
                0 <= t < k + 1 && (forall|t2: int| t < t2 < k + 1 ==> rows@[t2].0 != rows@[t].0)
                implies world.ranged@[rows@[t].0 as int] == Some(rows@[t].1) by {
                if t < k {
                    assert(rows@[t].0 != rows@[k as int].0);
                    assert(world.ranged@[rows@[t].0 as int] == pre.ranged@[rows@[t].0 as int]);
                }
            }
        }
        k = k + 1;
    }
}

/// Attaches the inflicts_table table; with duplicate keys the last row wins.
fn attach_inflicts_table(world: &mut World, rows: &Vec<(u64, InflictsDamage)>, count: usize)
    requires
        old(world).wf(),
        old(world).n() == count,
        forall|t: int| 0 <= t < rows@.len() ==> #[trigger] rows@[t].0 < count,
        forall|j: int|
            #![trigger old(world).slots@[j]]
            0 <= j < count ==> !(old(world).slots@[j].state is Free),
    ensures
        final(world).wf(),
        final(world).n() == count,
        final(world).slots@ == old(world).slots@,
        final(world).positions@ == old(world).positions@,
        final(world).renderables@ == old(world).renderables@,
        final(world).names@ == old(world).names@,
        final(world).blockers@ == old(world).blockers@,
        final(world).items@ == old(world).items@,
        final(world).backpacks@ == old(world).backpacks@,
        final(world).pickup_intents@ == old(world).pickup_intents@,
        final(world).healing@ == old(world).healing@,
        final(world).consumables@ == old(world).consumables@,
        final(world).use_intents@ == old(world).use_intents@,
        final(world).drop_intents@ == old(world).drop_intents@,
        final(world).speeds@ == old(world).speeds@,
        final(world).combat_stats@ == old(world).combat_stats@,
        final(world).melee_intents@ == old(world).melee_intents@,
        final(world).ranged@ == old(world).ranged@,
        final(world).suffering@ == old(world).suffering@,
        final(world).players@ == old(world).players@,
        final(world).viewsheds@ == old(world).viewsheds@,
        final(world).monsters@ == old(world).monsters@,
        final(world).markers@ == old(world).markers@,
        final(world).helpers@ == old(world).helpers@,
        forall|t: int|
            #![trigger rows@[t]]
            0 <= t < rows@.len() && (forall|t2: int| t < t2 < rows@.len() ==> rows@[t2].0
                != rows@[t].0) ==> final(world).inflicts@[rows@[t].0 as int] == Some(rows@[t].1),
{
    let tn = rows.len();
    let mut k: usize = 0;
    while k < tn
        invariant
            world.wf(),
            world.n() == count,
            tn == rows@.len(),
            k <= tn,
            forall|t: int| 0 <= t < tn ==> #[trigger] rows@[t].0 < count,
            forall|j: int|
                #![trigger world.slots@[j]]
                0 <= j < count ==> !(world.slots@[j].state is Free),
            world.slots@ == old(world).slots@,
            world.positions@ == old(world).positions@,
            world.renderables@ == old(world).renderables@,
            world.names@ == old(world).names@,
            world.blockers@ == old(world).blockers@,
            world.items@ == old(world).items@,
            world.backpacks@ == old(world).backpacks@,
            world.pickup_intents@ == old(world).pickup_intents@,
            world.healing@ == old(world).healing@,
            world.consumables@ == old(world).consumables@,
            world.use_intents@ == old(world).use_intents@,
            world.drop_intents@ == old(world).drop_intents@,
            world.speeds@ == old(world).speeds@,
            world.combat_stats@ == old(world).combat_stats@,
            world.melee_intents@ == old(world).melee_intents@,
            world.ranged@ == old(world).ranged@,
            world.suffering@ == old(world).suffering@,
            world.players@ == old(world).players@,
            world.viewsheds@ == old(world).viewsheds@,
            world.monsters@ == old(world).monsters@,
            world.markers@ == old(world).markers@,
            world.helpers@ == old(world).helpers@,
            forall|t: int|
                #![trigger rows@[t]]
                0 <= t < k && (forall|t2: int| t < t2 < k ==> rows@[t2].0 != rows@[t].0)
                    ==> world.inflicts@[rows@[t].0 as int] == Some(rows@[t].1),
        decreases tn - k,
    {
        let ghost pre = *world;
        let id = rows[k].0 as usize;
        world.inflicts.set(id, Some(rows[k].1));
        proof {
            assert forall|j: int|
                0 <= j < world.n() && world.slots@[j].state is Free implies world.no_comps_at(
                j,
            ) by {
                assert(pre.no_comps_at(j));
            }
            assert forall|t: int|
                #![trigger rows@[t]]
                0 <= t < k + 1 && (forall|t2: int| t < t2 < k + 1 ==> rows@[t2].0 != rows@[t].0)
                implies world.inflicts@[rows@[t].0 as int] == Some(rows@[t].1) by {
                if t < k {
                    assert(rows@[t].0 != rows@[k as int].0);
                    assert(world.inflicts@[rows@[t].0 as int] == pre.inflicts@[rows@[t].0 as int]);
                }
            }
        }
        k = k + 1;
    }
}

/// Attaches the healing_table table; with duplicate keys the last row wins.
fn attach_healing_table(world: &mut World, rows: &Vec<(u64, ProvidesHealing)>, count: usize)
    requires
        old(world).wf(),
        old(world).n() == count,
        forall|t: int| 0 <= t < rows@.len() ==> #[trigger] rows@[t].0 < count,
        forall|j: int|
            #![trigger old(world).slots@[j]]
            0 <= j < count ==> !(old(world).slots@[j].state is Free),
    ensures
        final(world).wf(),
        final(world).n() == count,
        final(world).slots@ == old(world).slots@,
        final(world).positions@ == old(world).positions@,
        final(world).renderables@ == old(world).renderables@,
        final(world).names@ == old(world).names@,
        final(world).blockers@ == old(world).blockers@,
        final(world).items@ == old(world).items@,
        final(world).backpacks@ == old(world).backpacks@,
        final(world).pickup_intents@ == old(world).pickup_intents@,
        final(world).consumables@ == old(world).consumables@,
        final(world).use_intents@ == old(world).use_intents@,
        final(world).drop_intents@ == old(world).drop_intents@,
        final(world).speeds@ == old(world).speeds@,
        final(world).combat_stats@ == old(world).combat_stats@,
        final(world).melee_intents@ == old(world).melee_intents@,
        final(world).ranged@ == old(world).ranged@,
        final(world).inflicts@ == old(world).inflicts@,
        final(world).suffering@ == old(world).suffering@,
        final(world).players@ == old(world).players@,
        final(world).viewsheds@ == old(world).viewsheds@,
        final(world).monsters@ == old(world).monsters@,
        final(world).markers@ == old(world).markers@,
        final(world).helpers@ == old(world).helpers@,
        forall|t: int|
            #![trigger rows@[t]]
            0 <= t < rows@.len() && (forall|t2: int| t < t2 < rows@.len() ==> rows@[t2].0
                != rows@[t].0) ==> final(world).healing@[rows@[t].0 as int] == Some(rows@[t].1),
{
    let tn = rows.len();
    let mut k: usize = 0;
    while k < tn
        invariant
            world.wf(),
            world.n() == count,
            tn == rows@.len(),
            k <= tn,
            forall|t: int| 0 <= t < tn ==> #[trigger] rows@[t].0 < count,
            forall|j: int|
                #![trigger world.slots@[j]]
                0 <= j < count ==> !(world.slots@[j].state is Free),
            world.slots@ == old(world).slots@,
            world.positions@ == old(world).positions@,
            world.renderables@ == old(world).renderables@,
            world.names@ == old(world).names@,
            world.blockers@ == old(world).blockers@,
            world.items@ == old(world).items@,
            world.backpacks@ == old(world).backpacks@,
            world.pickup_intents@ == old(world).pickup_intents@,
            world.consumables@ == old(world).consumables@,
            world.use_intents@ == old(world).use_intents@,
            world.drop_intents@ == old(world).drop_intents@,
            world.speeds@ == old(world).speeds@,
            world.combat_stats@ == old(world).combat_stats@,
            world.melee_intents@ == old(world).melee_intents@,
            world.ranged@ == old(world).ranged@,
            world.inflicts@ == old(world).inflicts@,
            world.suffering@ == old(world).suffering@,
            world.players@ == old(world).players@,
            world.viewsheds@ == old(world).viewsheds@,
            world.monsters@ == old(world).monsters@,
            world.markers@ == old(world).markers@,
            world.helpers@ == old(world).helpers@,
            forall|t: int|
                #![trigger rows@[t]]
                0 <= t < k && (forall|t2: int| t < t2 < k ==> rows@[t2].0 != rows@[t].0)
                    ==> world.healing@[rows@[t].0 as int] == Some(rows@[t].1),
        decreases tn - k,
    {
        let ghost pre = *world;
        let id = rows[k].0 as usize;
        world.healing.set(id, Some(rows[k].1));
        proof {
            assert forall|j: int|
                0 <= j < world.n() && world.slots@[j].state is Free implies world.no_comps_at(
                j,
            ) by {
                assert(pre.no_comps_at(j));
            }
            assert forall|t: int|
                #![trigger rows@[t]]
                0 <= t < k + 1 && (forall|t2: int| t < t2 < k + 1 ==> rows@[t2].0 != rows@[t].0)
                implies world.healing@[rows@[t].0 as int] == Some(rows@[t].1) by {
                if t < k {
                    assert(rows@[t].0 != rows@[k as int].0);
                    assert(world.healing@[rows@[t].0 as int] == pre.healing@[rows@[t].0 as int]);
                }
            }
        }
        k = k + 1;
    }
}

/// Attaches the player_tags tags.
fn attach_player_tags(world: &mut World, rows: &Vec<u64>, count: usize)
    requires
        old(world).wf(),
        old(world).n() == count,
        forall|t: int| 0 <= t < rows@.len() ==> #[trigger] rows@[t] < count,
        forall|j: int|
            #![trigger old(world).slots@[j]]
            0 <= j < count ==> !(old(world).slots@[j].state is Free),
    ensures
        final(world).wf(),
        final(world).n() == count,
        final(world).slots@ == old(world).slots@,
        final(world).positions@ == old(world).positions@,
        final(world).renderables@ == old(world).renderables@,
        final(world).names@ == old(world).names@,
        final(world).blockers@ == old(world).blockers@,
        final(world).items@ == old(world).items@,
        final(world).backpacks@ == old(world).backpacks@,
        final(world).pickup_intents@ == old(world).pickup_intents@,
        final(world).healing@ == old(world).healing@,
        final(world).consumables@ == old(world).consumables@,
        final(world).use_intents@ == old(world).use_intents@,
        final(world).drop_intents@ == old(world).drop_intents@,
        final(world).speeds@ == old(world).speeds@,
        final(world).combat_stats@ == old(world).combat_stats@,
        final(world).melee_intents@ == old(world).melee_intents@,
        final(world).ranged@ == old(world).ranged@,
        final(world).inflicts@ == old(world).inflicts@,
        final(world).suffering@ == old(world).suffering@,
        final(world).viewsheds@ == old(world).viewsheds@,
        final(world).monsters@ == old(world).monsters@,
        final(world).markers@ == old(world).markers@,
        final(world).helpers@ == old(world).helpers@,
        forall|t: int|
            0 <= t < rows@.len() ==> final(world).players@[#[trigger] rows@[t] as int] == Some(
                Player {  },
            ),
{
    let tn = rows.len();
    let mut k: usize = 0;
    while k < tn
        invariant
            world.wf(),
            world.n() == count,
            tn == rows@.len(),
            k <= tn,
            forall|t: int| 0 <= t < tn ==> #[trigger] rows@[t] < count,
            forall|j: int|
                #![trigger world.slots@[j]]
                0 <= j < count ==> !(world.slots@[j].state is Free),
            world.slots@ == old(world).slots@,
            world.positions@ == old(world).positions@,
            world.renderables@ == old(world).renderables@,
            world.names@ == old(world).names@,
            world.blockers@ == old(world).blockers@,
            world.items@ == old(world).items@,
            world.backpacks@ == old(world).backpacks@,
            world.pickup_intents@ == old(world).pickup_intents@,
            world.healing@ == old(world).healing@,
            world.consumables@ == old(world).consumables@,
            world.use_intents@ == old(world).use_intents@,
            world.drop_intents@ == old(world).drop_intents@,
            world.speeds@ == old(world).speeds@,
            world.combat_stats@ == old(world).combat_stats@,
            world.melee_intents@ == old(world).melee_intents@,
            world.ranged@ == old(world).ranged@,
            world.inflicts@ == old(world).inflicts@,
            world.suffering@ == old(world).suffering@,
            world.viewsheds@ == old(world).viewsheds@,
            world.monsters@ == old(world).monsters@,
            world.markers@ == old(world).markers@,
            world.helpers@ == old(world).helpers@,
            forall|t: int|
                0 <= t < k ==> world.players@[#[trigger] rows@[t] as int] == Some(Player {  }),
        decreases tn - k,
    {
        let ghost pre = *world;
        let id = rows[k] as usize;
        world.players.set(id, Some(Player {  }));
        proof {
            assert forall|j: int|
                0 <= j < world.n() && world.slots@[j].state is Free implies world.no_comps_at(
                j,
            ) by {
                assert(pre.no_comps_at(j));
            }
            assert forall|t: int|
                0 <= t < k + 1 implies world.players@[#[trigger] rows@[t] as int] == Some(
                Player {  },
            ) by {
                if rows@[t] != rows@[k as int] {
                    assert(world.players@[rows@[t] as int] == pre.players@[rows@[t] as int]);
                }
            }
        }
        k = k + 1;
    }
}

/// Attaches the monster_tags tags.
fn attach_monster_tags(world: &mut World, rows: &Vec<u64>, count: usize)
    requires
        old(world).wf(),
        old(world).n() == count,
        forall|t: int| 0 <= t < rows@.len() ==> #[trigger] rows@[t] < count,
        forall|j: int|
            #![trigger old(world).slots@[j]]
            0 <= j < count ==> !(old(world).slots@[j].state is Free),
    ensures
        final(world).wf(),
        final(world).n() == count,
        final(world).slots@ == old(world).slots@,
        final(world).positions@ == old(world).positions@,
        final(world).renderables@ == old(world).renderables@,
        final(world).names@ == old(world).names@,
        final(world).blockers@ == old(world).blockers@,
        final(world).items@ == old(world).items@,
        final(world).backpacks@ == old(world).backpacks@,
        final(world).pickup_intents@ == old(world).pickup_intents@,
        final(world).healing@ == old(world).healing@,
        final(world).consumables@ == old(world).consumables@,
        final(world).use_intents@ == old(world).use_intents@,
        final(world).drop_intents@ == old(world).drop_intents@,
        final(world).speeds@ == old(world).speeds@,
        final(world).combat_stats@ == old(world).combat_stats@,
        final(world).melee_intents@ == old(world).melee_intents@,
        final(world).ranged@ == old(world).ranged@,
        final(world).inflicts@ == old(world).inflicts@,
        final(world).suffering@ == old(world).suffering@,
        final(world).players@ == old(world).players@,
        final(world).viewsheds@ == old(world).viewsheds@,
        final(world).markers@ == old(world).markers@,
        final(world).helpers@ == old(world).helpers@,
        forall|t: int|
            0 <= t < rows@.len() ==> final(world).monsters@[#[trigger] rows@[t] as int] == Some(
                Monster {  },
            ),
{
    let tn = rows.len();
    let mut k: usize = 0;
    while k < tn
        invariant
            world.wf(),
            world.n() == count,
            tn == rows@.len(),
            k <= tn,
            forall|t: int| 0 <= t < tn ==> #[trigger] rows@[t] < count,
            forall|j: int|
                #![trigger world.slots@[j]]
                0 <= j < count ==> !(world.slots@[j].state is Free),
            world.slots@ == old(world).slots@,
            world.positions@ == old(world).positions@,
            world.renderables@ == old(world).renderables@,
            world.names@ == old(world).names@,
            world.blockers@ == old(world).blockers@,
            world.items@ == old(world).items@,
            world.backpacks@ == old(world).backpacks@,
            world.pickup_intents@ == old(world).pickup_intents@,
            world.healing@ == old(world).healing@,
            world.consumables@ == old(world).consumables@,
            world.use_intents@ == old(world).use_intents@,
            world.drop_intents@ == old(world).drop_intents@,
            world.speeds@ == old(world).speeds@,
            world.combat_stats@ == old(world).combat_stats@,
            world.melee_intents@ == old(world).melee_intents@,
            world.ranged@ == old(world).ranged@,
            world.inflicts@ == old(world).inflicts@,
            world.suffering@ == old(world).suffering@,
            world.players@ == old(world).players@,
            world.viewsheds@ == old(world).viewsheds@,
            world.markers@ == old(world).markers@,
            world.helpers@ == old(world).helpers@,
            forall|t: int|
                0 <= t < k ==> world.monsters@[#[trigger] rows@[t] as int] == Some(Monster {  }),
        decreases tn - k,
    {
        let ghost pre = *world;
        let id = rows[k] as usize;
        world.monsters.set(id, Some(Monster {  }));
        proof {
            assert forall|j: int|
                0 <= j < world.n() && world.slots@[j].state is Free implies world.no_comps_at(
                j,
            ) by {
                assert(pre.no_comps_at(j));
            }
            assert forall|t: int|
                0 <= t < k + 1 implies world.monsters@[#[trigger] rows@[t] as int] == Some(
                Monster {  },
            ) by {
                if rows@[t] != rows@[k as int] {
                    assert(world.monsters@[rows@[t] as int] == pre.monsters@[rows@[t] as int]);
                }
            }
        }
        k = k + 1;
    }
}

/// Attaches the blocker_tags tags.
fn attach_blocker_tags(world: &mut World, rows: &Vec<u64>, count: usize)
    requires
        old(world).wf(),
        old(world).n() == count,
        forall|t: int| 0 <= t < rows@.len() ==> #[trigger] rows@[t] < count,
        forall|j: int|
            #![trigger old(world).slots@[j]]
            0 <= j < count ==> !(old(world).slots@[j].state is Free),
    ensures
        final(world).wf(),
        final(world).n() == count,
        final(world).slots@ == old(world).slots@,
        final(world).positions@ == old(world).positions@,
        final(world).renderables@ == old(world).renderables@,
        final(world).names@ == old(world).names@,
        final(world).items@ == old(world).items@,
        final(world).backpacks@ == old(world).backpacks@,
        final(world).pickup_intents@ == old(world).pickup_intents@,
        final(world).healing@ == old(world).healing@,
        final(world).consumables@ == old(world).consumables@,
        final(world).use_intents@ == old(world).use_intents@,
        final(world).drop_intents@ == old(world).drop_intents@,
        final(world).speeds@ == old(world).speeds@,
        final(world).combat_stats@ == old(world).combat_stats@,
        final(world).melee_intents@ == old(world).melee_intents@,
        final(world).ranged@ == old(world).ranged@,
        final(world).inflicts@ == old(world).inflicts@,
        final(world).suffering@ == old(world).suffering@,
        final(world).players@ == old(world).players@,
        final(world).viewsheds@ == old(world).viewsheds@,
        final(world).monsters@ == old(world).monsters@,
        final(world).markers@ == old(world).markers@,
        final(world).helpers@ == old(world).helpers@,
        forall|t: int|
            0 <= t < rows@.len() ==> final(world).blockers@[#[trigger] rows@[t] as int] == Some(
                BlocksTile {  },
            ),
{
    let tn = rows.len();
    let mut k: usize = 0;
    while k < tn
        invariant
            world.wf(),
            world.n() == count,
            tn == rows@.len(),
            k <= tn,
            forall|t: int| 0 <= t < tn ==> #[trigger] rows@[t] < count,
            forall|j: int|
                #![trigger world.slots@[j]]
                0 <= j < count ==> !(world.slots@[j].state is Free),
            world.slots@ == old(world).slots@,
            world.positions@ == old(world).positions@,
            world.renderables@ == old(world).renderables@,
            world.names@ == old(world).names@,
            world.items@ == old(world).items@,
            world.backpacks@ == old(world).backpacks@,
            world.pickup_intents@ == old(world).pickup_intents@,
            world.healing@ == old(world).healing@,
            world.consumables@ == old(world).consumables@,
            world.use_intents@ == old(world).use_intents@,
            world.drop_intents@ == old(world).drop_intents@,
            world.speeds@ == old(world).speeds@,
            world.combat_stats@ == old(world).combat_stats@,
            world.melee_intents@ == old(world).melee_intents@,
            world.ranged@ == old(world).ranged@,
            world.inflicts@ == old(world).inflicts@,
            world.suffering@ == old(world).suffering@,
            world.players@ == old(world).players@,
            world.viewsheds@ == old(world).viewsheds@,
            world.monsters@ == old(world).monsters@,
            world.markers@ == old(world).markers@,
            world.helpers@ == old(world).helpers@,
            forall|t: int|
                0 <= t < k ==> world.blockers@[#[trigger] rows@[t] as int] == Some(BlocksTile {  }),
        decreases tn - k,
    {
        let ghost pre = *world;
        let id = rows[k] as usize;
        world.blockers.set(id, Some(BlocksTile {  }));
        proof {
            assert forall|j: int|
                0 <= j < world.n() && world.slots@[j].state is Free implies world.no_comps_at(
                j,
            ) by {
                assert(pre.no_comps_at(j));
            }
            assert forall|t: int|
                0 <= t < k + 1 implies world.blockers@[#[trigger] rows@[t] as int] == Some(
                BlocksTile {  },
            ) by {
                if rows@[t] != rows@[k as int] {
                    assert(world.blockers@[rows@[t] as int] == pre.blockers@[rows@[t] as int]);
                }
            }
        }
        k = k + 1;
    }
}

/// Attaches the item_tags tags.
fn attach_item_tags(world: &mut World, rows: &Vec<u64>, count: usize)
    requires
        old(world).wf(),
        old(world).n() == count,
        forall|t: int| 0 <= t < rows@.len() ==> #[trigger] rows@[t] < count,
        forall|j: int|
            #![trigger old(world).slots@[j]]
            0 <= j < count ==> !(old(world).slots@[j].state is Free),
    ensures
        final(world).wf(),
        final(world).n() == count,
        final(world).slots@ == old(world).slots@,
        final(world).positions@ == old(world).positions@,
        final(world).renderables@ == old(world).renderables@,
        final(world).names@ == old(world).names@,
        final(world).blockers@ == old(world).blockers@,
        final(world).backpacks@ == old(world).backpacks@,
        final(world).pickup_intents@ == old(world).pickup_intents@,
        final(world).healing@ == old(world).healing@,
        final(world).consumables@ == old(world).consumables@,
        final(world).use_intents@ == old(world).use_intents@,
        final(world).drop_intents@ == old(world).drop_intents@,
        final(world).speeds@ == old(world).speeds@,
        final(world).combat_stats@ == old(world).combat_stats@,
        final(world).melee_intents@ == old(world).melee_intents@,
        final(world).ranged@ == old(world).ranged@,
        final(world).inflicts@ == old(world).inflicts@,
        final(world).suffering@ == old(world).suffering@,
        final(world).players@ == old(world).players@,
        final(world).viewsheds@ == old(world).viewsheds@,
        final(world).monsters@ == old(world).monsters@,
        final(world).markers@ == old(world).markers@,
        final(world).helpers@ == old(world).helpers@,
        forall|t: int|
            0 <= t < rows@.len() ==> final(world).items@[#[trigger] rows@[t] as int] == Some(
                Item {  },
            ),
{
    let tn = rows.len();
    let mut k: usize = 0;
    while k < tn
        invariant
            world.wf(),
            world.n() == count,
            tn == rows@.len(),
            k <= tn,
            forall|t: int| 0 <= t < tn ==> #[trigger] rows@[t] < count,
            forall|j: int|
                #![trigger world.slots@[j]]
                0 <= j < count ==> !(world.slots@[j].state is Free),
            world.slots@ == old(world).slots@,
            world.positions@ == old(world).positions@,
            world.renderables@ == old(world).renderables@,
            world.names@ == old(world).names@,
            world.blockers@ == old(world).blockers@,
            world.backpacks@ == old(world).backpacks@,
            world.pickup_intents@ == old(world).pickup_intents@,
            world.healing@ == old(world).healing@,
            world.consumables@ == old(world).consumables@,
            world.use_intents@ == old(world).use_intents@,
            world.drop_intents@ == old(world).drop_intents@,
            world.speeds@ == old(world).speeds@,
            world.combat_stats@ == old(world).combat_stats@,
            world.melee_intents@ == old(world).melee_intents@,
            world.ranged@ == old(world).ranged@,
            world.inflicts@ == old(world).inflicts@,
            world.suffering@ == old(world).suffering@,
            world.players@ == old(world).players@,
            world.viewsheds@ == old(world).viewsheds@,
            world.monsters@ == old(world).monsters@,
            world.markers@ == old(world).markers@,
            world.helpers@ == old(world).helpers@,
            forall|t: int|
                0 <= t < k ==> world.items@[#[trigger] rows@[t] as int] == Some(Item {  }),
        decreases tn - k,
    {
        let ghost pre = *world;
        let id = rows[k] as usize;
        world.items.set(id, Some(Item {  }));
        proof {
            assert forall|j: int|
                0 <= j < world.n() && world.slots@[j].state is Free implies world.no_comps_at(
                j,
            ) by {
                assert(pre.no_comps_at(j));
            }
            assert forall|t: int|
                0 <= t < k + 1 implies world.items@[#[trigger] rows@[t] as int] == Some(
                Item {  },
            ) by {
                if rows@[t] != rows@[k as int] {
                    assert(world.items@[rows@[t] as int] == pre.items@[rows@[t] as int]);
                }
            }
        }
        k = k + 1;
    }
}

/// Attaches the consumable_tags tags.
fn attach_consumable_tags(world: &mut World, rows: &Vec<u64>, count: usize)
    requires
        old(world).wf(),
        old(world).n() == count,
        forall|t: int| 0 <= t < rows@.len() ==> #[trigger] rows@[t] < count,
        forall|j: int|
            #![trigger old(world).slots@[j]]
            0 <= j < count ==> !(old(world).slots@[j].state is Free),
    ensures
        final(world).wf(),
        final(world).n() == count,
        final(world).slots@ == old(world).slots@,
        final(world).positions@ == old(world).positions@,
        final(world).renderables@ == old(world).renderables@,
        final(world).names@ == old(world).names@,
        final(world).blockers@ == old(world).blockers@,
        final(world).items@ == old(world).items@,
        final(world).backpacks@ == old(world).backpacks@,
        final(world).pickup_intents@ == old(world).pickup_intents@,
        final(world).healing@ == old(world).healing@,
        final(world).use_intents@ == old(world).use_intents@,
        final(world).drop_intents@ == old(world).drop_intents@,
        final(world).speeds@ == old(world).speeds@,
        final(world).combat_stats@ == old(world).combat_stats@,
        final(world).melee_intents@ == old(world).melee_intents@,
        final(world).ranged@ == old(world).ranged@,
        final(world).inflicts@ == old(world).inflicts@,
        final(world).suffering@ == old(world).suffering@,
        final(world).players@ == old(world).players@,
        final(world).viewsheds@ == old(world).viewsheds@,
        final(world).monsters@ == old(world).monsters@,
        final(world).markers@ == old(world).markers@,
        final(world).helpers@ == old(world).helpers@,
        forall|t: int|
            0 <= t < rows@.len() ==> final(world).consumables@[#[trigger] rows@[t] as int] == Some(
                Consumable {  },
            ),
{
    let tn = rows.len();
    let mut k: usize = 0;
    while k < tn
        invariant
            world.wf(),
            world.n() == count,
            tn == rows@.len(),
            k <= tn,
            forall|t: int| 0 <= t < tn ==> #[trigger] rows@[t] < count,
            forall|j: int|
                #![trigger world.slots@[j]]
                0 <= j < count ==> !(world.slots@[j].state is Free),
            world.slots@ == old(world).slots@,
            world.positions@ == old(world).positions@,
            world.renderables@ == old(world).renderables@,
            world.names@ == old(world).names@,
            world.blockers@ == old(world).blockers@,
            world.items@ == old(world).items@,
            world.backpacks@ == old(world).backpacks@,
            world.pickup_intents@ == old(world).pickup_intents@,
            world.healing@ == old(world).healing@,
            world.use_intents@ == old(world).use_intents@,
            world.drop_intents@ == old(world).drop_intents@,
            world.speeds@ == old(world).speeds@,
            world.combat_stats@ == old(world).combat_stats@,
            world.melee_intents@ == old(world).melee_intents@,
            world.ranged@ == old(world).ranged@,
            world.inflicts@ == old(world).inflicts@,
            world.suffering@ == old(world).suffering@,
            world.players@ == old(world).players@,
            world.viewsheds@ == old(world).viewsheds@,
            world.monsters@ == old(world).monsters@,
            world.markers@ == old(world).markers@,
            world.helpers@ == old(world).helpers@,
            forall|t: int|
                0 <= t < k ==> world.consumables@[#[trigger] rows@[t] as int] == Some(Consumable {  }),
        decreases tn - k,
    {
        let ghost pre = *world;
        let id = rows[k] as usize;
        world.consumables.set(id, Some(Consumable {  }));
        proof {
            assert forall|j: int|
                0 <= j < world.n() && world.slots@[j].state is Free implies world.no_comps_at(
                j,
            ) by {
                assert(pre.no_comps_at(j));
            }
            assert forall|t: int|
                0 <= t < k + 1 implies world.consumables@[#[trigger] rows@[t] as int] == Some(
                Consumable {  },
            ) by {
                if rows@[t] != rows@[k as int] {
                    assert(world.consumables@[rows@[t] as int] == pre.consumables@[rows@[t] as int]);
                }
            }
        }
        k = k + 1;
    }
}

/// Attaches the marker_tags tags.
fn attach_marker_tags(world: &mut World, rows: &Vec<u64>, count: usize)
    requires
        old(world).wf(),
        old(world).n() == count,
        forall|t: int| 0 <= t < rows@.len() ==> #[trigger] rows@[t] < count,
        forall|j: int|
            #![trigger old(world).slots@[j]]
            0 <= j < count ==> !(old(world).slots@[j].state is Free),
    ensures
        final(world).wf(),
        final(world).n() == count,
        final(world).slots@ == old(world).slots@,
        final(world).positions@ == old(world).positions@,
        final(world).renderables@ == old(world).renderables@,
        final(world).names@ == old(world).names@,
        final(world).blockers@ == old(world).blockers@,
        final(world).items@ == old(world).items@,
        final(world).backpacks@ == old(world).backpacks@,
        final(world).pickup_intents@ == old(world).pickup_intents@,
        final(world).healing@ == old(world).healing@,
        final(world).consumables@ == old(world).consumables@,
        final(world).use_intents@ == old(world).use_intents@,
        final(world).drop_intents@ == old(world).drop_intents@,
        final(world).speeds@ == old(world).speeds@,
        final(world).combat_stats@ == old(world).combat_stats@,
        final(world).melee_intents@ == old(world).melee_intents@,
        final(world).ranged@ == old(world).ranged@,
        final(world).inflicts@ == old(world).inflicts@,
        final(world).suffering@ == old(world).suffering@,
        final(world).players@ == old(world).players@,
        final(world).viewsheds@ == old(world).viewsheds@,
        final(world).monsters@ == old(world).monsters@,
        final(world).helpers@ == old(world).helpers@,
        forall|t: int|
            0 <= t < rows@.len() ==> final(world).markers@[#[trigger] rows@[t] as int] == Some(
                SerializeMe {  },
            ),
{
    let tn = rows.len();
    let mut k: usize = 0;
    while k < tn
        invariant
            world.wf(),
            world.n() == count,
            tn == rows@.len(),
            k <= tn,
            forall|t: int| 0 <= t < tn ==> #[trigger] rows@[t] < count,
            forall|j: int|
                #![trigger world.slots@[j]]
                0 <= j < count ==> !(world.slots@[j].state is Free),
            world.slots@ == old(world).slots@,
            world.positions@ == old(world).positions@,
            world.renderables@ == old(world).renderables@,
            world.names@ == old(world).names@,
            world.blockers@ == old(world).blockers@,
            world.items@ == old(world).items@,
            world.backpacks@ == old(world).backpacks@,
            world.pickup_intents@ == old(world).pickup_intents@,
            world.healing@ == old(world).healing@,
            world.consumables@ == old(world).consumables@,
            world.use_intents@ == old(world).use_intents@,
            world.drop_intents@ == old(world).drop_intents@,
            world.speeds@ == old(world).speeds@,
            world.combat_stats@ == old(world).combat_stats@,
            world.melee_intents@ == old(world).melee_intents@,
            world.ranged@ == old(world).ranged@,
            world.inflicts@ == old(world).inflicts@,
            world.suffering@ == old(world).suffering@,
            world.players@ == old(world).players@,
            world.viewsheds@ == old(world).viewsheds@,
            world.monsters@ == old(world).monsters@,
            world.helpers@ == old(world).helpers@,
            forall|t: int|
                0 <= t < k ==> world.markers@[#[trigger] rows@[t] as int] == Some(SerializeMe {  }),
        decreases tn - k,
    {
        let ghost pre = *world;
        let id = rows[k] as usize;
        world.markers.set(id, Some(SerializeMe {  }));
        proof {
            assert forall|j: int|
                0 <= j < world.n() && world.slots@[j].state is Free implies world.no_comps_at(
                j,
            ) by {
                assert(pre.no_comps_at(j));
            }
            assert forall|t: int|
                0 <= t < k + 1 implies world.markers@[#[trigger] rows@[t] as int] == Some(
                SerializeMe {  },
            ) by {
                if rows@[t] != rows@[k as int] {
                    assert(world.markers@[rows@[t] as int] == pre.markers@[rows@[t] as int]);
                }
            }
        }
        k = k + 1;
    }
}

/// Attaches the use_table table, rewriting its reference to a fresh handle; with
/// duplicate keys the last row wins.
fn attach_use_table(world: &mut World, rows: &Vec<(u64, u64)>, count: usize)
    requires
        old(world).wf(),
        old(world).n() == count,
        forall|t: int| 0 <= t < rows@.len() ==> #[trigger] rows@[t].0 < count && rows@[t].1 < count,
        forall|j: int|
            #![trigger old(world).slots@[j]]
            0 <= j < count ==> !(old(world).slots@[j].state is Free),
    ensures
        final(world).wf(),
        final(world).n() == count,
        final(world).slots@ == old(world).slots@,
        final(world).positions@ == old(world).positions@,
        final(world).renderables@ == old(world).renderables@,
        final(world).names@ == old(world).names@,
        final(world).blockers@ == old(world).blockers@,
        final(world).items@ == old(world).items@,
        final(world).backpacks@ == old(world).backpacks@,
        final(world).pickup_intents@ == old(world).pickup_intents@,
        final(world).healing@ == old(world).healing@,
        final(world).consumables@ == old(world).consumables@,
        final(world).drop_intents@ == old(world).drop_intents@,
        final(world).speeds@ == old(world).speeds@,
        final(world).combat_stats@ == old(world).combat_stats@,
        final(world).melee_intents@ == old(world).melee_intents@,
        final(world).ranged@ == old(world).ranged@,
        final(world).inflicts@ == old(world).inflicts@,
        final(world).suffering@ == old(world).suffering@,
        final(world).players@ == old(world).players@,
        final(world).viewsheds@ == old(world).viewsheds@,
        final(world).monsters@ == old(world).monsters@,
        final(world).markers@ == old(world).markers@,
        final(world).helpers@ == old(world).helpers@,
        forall|t: int|
            #![trigger rows@[t]]
            0 <= t < rows@.len() && (forall|t2: int| t < t2 < rows@.len() ==> rows@[t2].0
                != rows@[t].0) ==> final(world).use_intents@[rows@[t].0 as int] == Some(WantsToUseItem { item: Entity { index: rows@[t].1 as usize, gen: 0 } }),
{
    let tn = rows.len();
    let mut k: usize = 0;
    while k < tn
        invariant
            world.wf(),
            world.n() == count,
            tn == rows@.len(),
            k <= tn,
            forall|t: int| 0 <= t < tn ==> #[trigger] rows@[t].0 < count && rows@[t].1 < count,
            forall|j: int|
                #![trigger world.slots@[j]]
                0 <= j < count ==> !(world.slots@[j].state is Free),
            world.slots@ == old(world).slots@,
            world.positions@ == old(world).positions@,
            world.renderables@ == old(world).renderables@,
            world.names@ == old(world).names@,
            world.blockers@ == old(world).blockers@,
            world.items@ == old(world).items@,
            world.backpacks@ == old(world).backpacks@,
            world.pickup_intents@ == old(world).pickup_intents@,
            world.healing@ == old(world).healing@,
            world.consumables@ == old(world).consumables@,
            world.drop_intents@ == old(world).drop_intents@,
            world.speeds@ == old(world).speeds@,
            world.combat_stats@ == old(world).combat_stats@,
            world.melee_intents@ == old(world).melee_intents@,
            world.ranged@ == old(world).ranged@,
            world.inflicts@ == old(world).inflicts@,
            world.suffering@ == old(world).suffering@,
            world.players@ == old(world).players@,
            world.viewsheds@ == old(world).viewsheds@,
            world.monsters@ == old(world).monsters@,
            world.markers@ == old(world).markers@,
            world.helpers@ == old(world).helpers@,
            forall|t: int|
                #![trigger rows@[t]]
                0 <= t < k && (forall|t2: int| t < t2 < k ==> rows@[t2].0 != rows@[t].0)
                    ==> world.use_intents@[rows@[t].0 as int] == Some(WantsToUseItem { item: Entity { index: rows@[t].1 as usize, gen: 0 } }),
        decreases tn - k,
    {
        let ghost pre = *world;
        let id = rows[k].0 as usize;
        let rid = rows[k].1 as usize;
        world.use_intents.set(id, Some(WantsToUseItem { item: Entity { index: rid, gen: 0 } }));
        proof {
            assert forall|j: int|
                0 <= j < world.n() && world.slots@[j].state is Free implies world.no_comps_at(
                j,
            ) by {
                assert(pre.no_comps_at(j));
            }
            assert forall|t: int|
                #![trigger rows@[t]]
                0 <= t < k + 1 && (forall|t2: int| t < t2 < k + 1 ==> rows@[t2].0 != rows@[t].0)
                implies world.use_intents@[rows@[t].0 as int] == Some(WantsToUseItem { item: Entity { index: rows@[t].1 as usize, gen: 0 } }) by {
                if t < k {
                    assert(rows@[t].0 != rows@[k as int].0);
                    assert(world.use_intents@[rows@[t].0 as int] == pre.use_intents@[rows@[t].0 as int]);
                }
            }
        }
        k = k + 1;
    }
}

/// Attaches the drop_table table, rewriting its reference to a fresh handle; with
/// duplicate keys the last row wins.
fn attach_drop_table(world: &mut World, rows: &Vec<(u64, u64)>, count: usize)
    requires
        old(world).wf(),
        old(world).n() == count,
        forall|t: int| 0 <= t < rows@.len() ==> #[trigger] rows@[t].0 < count && rows@[t].1 < count,
        forall|j: int|
            #![trigger old(world).slots@[j]]
            0 <= j < count ==> !(old(world).slots@[j].state is Free),
    ensures
        final(world).wf(),
        final(world).n() == count,
        final(world).slots@ == old(world).slots@,
        final(world).positions@ == old(world).positions@,
        final(world).renderables@ == old(world).renderables@,
        final(world).names@ == old(world).names@,
        final(world).blockers@ == old(world).blockers@,
        final(world).items@ == old(world).items@,
        final(world).backpacks@ == old(world).backpacks@,
        final(world).pickup_intents@ == old(world).pickup_intents@,
        final(world).healing@ == old(world).healing@,
        final(world).consumables@ == old(world).consumables@,
        final(world).use_intents@ == old(world).use_intents@,
        final(world).speeds@ == old(world).speeds@,
        final(world).combat_stats@ == old(world).combat_stats@,
        final(world).melee_intents@ == old(world).melee_intents@,
        final(world).ranged@ == old(world).ranged@,
        final(world).inflicts@ == old(world).inflicts@,
        final(world).suffering@ == old(world).suffering@,
        final(world).players@ == old(world).players@,
        final(world).viewsheds@ == old(world).viewsheds@,
        final(world).monsters@ == old(world).monsters@,
        final(world).markers@ == old(world).markers@,
        final(world).helpers@ == old(world).helpers@,
        forall|t: int|
            #![trigger rows@[t]]
            0 <= t < rows@.len() && (forall|t2: int| t < t2 < rows@.len() ==> rows@[t2].0
                != rows@[t].0) ==> final(world).drop_intents@[rows@[t].0 as int] == Some(WantsToDropItem { item: Entity { index: rows@[t].1 as usize, gen: 0 } }),
{
    let tn = rows.len();
    let mut k: usize = 0;
    while k < tn
        invariant
            world.wf(),
            world.n() == count,
            tn == rows@.len(),
            k <= tn,
            forall|t: int| 0 <= t < tn ==> #[trigger] rows@[t].0 < count && rows@[t].1 < count,
            forall|j: int|
                #![trigger world.slots@[j]]
                0 <= j < count ==> !(world.slots@[j].state is Free),
            world.slots@ == old(world).slots@,
            world.positions@ == old(world).positions@,
            world.renderables@ == old(world).renderables@,
            world.names@ == old(world).names@,
            world.blockers@ == old(world).blockers@,
            world.items@ == old(world).items@,
            world.backpacks@ == old(world).backpacks@,
            world.pickup_intents@ == old(world).pickup_intents@,
            world.healing@ == old(world).healing@,
            world.consumables@ == old(world).consumables@,
            world.use_intents@ == old(world).use_intents@,
            world.speeds@ == old(world).speeds@,
            world.combat_stats@ == old(world).combat_stats@,
            world.melee_intents@ == old(world).melee_intents@,
            world.ranged@ == old(world).ranged@,
            world.inflicts@ == old(world).inflicts@,
            world.suffering@ == old(world).suffering@,
            world.players@ == old(world).players@,
            world.viewsheds@ == old(world).viewsheds@,
            world.monsters@ == old(world).monsters@,
            world.markers@ == old(world).markers@,
            world.helpers@ == old(world).helpers@,
            forall|t: int|
                #![trigger rows@[t]]
                0 <= t < k && (forall|t2: int| t < t2 < k ==> rows@[t2].0 != rows@[t].0)
                    ==> world.drop_intents@[rows@[t].0 as int] == Some(WantsToDropItem { item: Entity { index: rows@[t].1 as usize, gen: 0 } }),
        decreases tn - k,
    {
        let ghost pre = *world;
        let id = rows[k].0 as usize;
        let rid = rows[k].1 as usize;
        world.drop_intents.set(id, Some(WantsToDropItem { item: Entity { index: rid, gen: 0 } }));
        proof {
            assert forall|j: int|
                0 <= j < world.n() && world.slots@[j].state is Free implies world.no_comps_at(
                j,
            ) by {
                assert(pre.no_comps_at(j));
            }
            assert forall|t: int|
                #![trigger rows@[t]]
                0 <= t < k + 1 && (forall|t2: int| t < t2 < k + 1 ==> rows@[t2].0 != rows@[t].0)
                implies world.drop_intents@[rows@[t].0 as int] == Some(WantsToDropItem { item: Entity { index: rows@[t].1 as usize, gen: 0 } }) by {
                if t < k {
                    assert(rows@[t].0 != rows@[k as int].0);
                    assert(world.drop_intents@[rows@[t].0 as int] == pre.drop_intents@[rows@[t].0 as int]);
                }
            }
        }
        k = k + 1;
    }
}

/// Attaches the viewshed table (field-preserving copies); with duplicate
/// keys the last row wins.
fn attach_viewshed_table(world: &mut World, rows: &Vec<(u64, Viewshed)>, count: usize)
    requires
        old(world).wf(),
        old(world).n() == count,
        forall|t: int| 0 <= t < rows@.len() ==> #[trigger] rows@[t].0 < count,
        forall|j: int|
            #![trigger old(world).slots@[j]]
            0 <= j < count ==> !(old(world).slots@[j].state is Free),
    ensures
        final(world).wf(),
        final(world).n() == count,
        final(world).slots@ == old(world).slots@,
        final(world).positions@ == old(world).positions@,
        final(world).renderables@ == old(world).renderables@,
        final(world).names@ == old(world).names@,
        final(world).blockers@ == old(world).blockers@,
        final(world).items@ == old(world).items@,
        final(world).backpacks@ == old(world).backpacks@,
        final(world).pickup_intents@ == old(world).pickup_intents@,
        final(world).healing@ == old(world).healing@,
        final(world).consumables@ == old(world).consumables@,
        final(world).use_intents@ == old(world).use_intents@,
        final(world).drop_intents@ == old(world).drop_intents@,
        final(world).speeds@ == old(world).speeds@,
        final(world).combat_stats@ == old(world).combat_stats@,
        final(world).melee_intents@ == old(world).melee_intents@,
        final(world).ranged@ == old(world).ranged@,
        final(world).inflicts@ == old(world).inflicts@,
        final(world).suffering@ == old(world).suffering@,
        final(world).players@ == old(world).players@,
        final(world).monsters@ == old(world).monsters@,
        final(world).markers@ == old(world).markers@,
        final(world).helpers@ == old(world).helpers@,
        forall|t: int|
            #![trigger rows@[t]]
            0 <= t < rows@.len() && (forall|t2: int| t < t2 < rows@.len() ==> rows@[t2].0
                != rows@[t].0) ==> (final(world).viewsheds@[rows@[t].0 as int] matches Some(v)
                && v.range == rows@[t].1.range && v.dirty == rows@[t].1.dirty && v.visible_tiles@
                == rows@[t].1.visible_tiles@),
{
    let tn = rows.len();
    let mut k: usize = 0;
    while k < tn
        invariant
            world.wf(),
            world.n() == count,
            tn == rows@.len(),
            k <= tn,
            forall|t: int| 0 <= t < tn ==> #[trigger] rows@[t].0 < count,
            forall|j: int|
                #![trigger world.slots@[j]]
                0 <= j < count ==> !(world.slots@[j].state is Free),
            world.slots@ == old(world).slots@,
            world.positions@ == old(world).positions@,
            world.renderables@ == old(world).renderables@,
            world.names@ == old(world).names@,
            world.blockers@ == old(world).blockers@,
            world.items@ == old(world).items@,
            world.backpacks@ == old(world).backpacks@,
            world.pickup_intents@ == old(world).pickup_intents@,
            world.healing@ == old(world).healing@,
            world.consumables@ == old(world).consumables@,
            world.use_intents@ == old(world).use_intents@,
            world.drop_intents@ == old(world).drop_intents@,
            world.speeds@ == old(world).speeds@,
            world.combat_stats@ == old(world).combat_stats@,
            world.melee_intents@ == old(world).melee_intents@,
            world.ranged@ == old(world).ranged@,
            world.inflicts@ == old(world).inflicts@,
            world.suffering@ == old(world).suffering@,
            world.players@ == old(world).players@,
            world.monsters@ == old(world).monsters@,
            world.markers@ == old(world).markers@,
            world.helpers@ == old(world).helpers@,
            forall|t: int|
                #![trigger rows@[t]]
                0 <= t < k && (forall|t2: int| t < t2 < k ==> rows@[t2].0 != rows@[t].0) ==> (
                world.viewsheds@[rows@[t].0 as int] matches Some(v) && v.range == rows@[t].1.range
                    && v.dirty == rows@[t].1.dirty && v.visible_tiles@
                    == rows@[t].1.visible_tiles@),
        decreases tn - k,
    {
        let ghost pre = *world;
        let id = rows[k].0 as usize;
        let v = &rows[k].1;
        world.viewsheds.set(
            id,
            Some(
                Viewshed {
                    visible_tiles: crate::util::copy_vec(&v.visible_tiles),
                    range: v.range,
                    dirty: v.dirty,
                },
            ),
        );
        proof {
            assert forall|j: int|
                0 <= j < world.n() && world.slots@[j].state is Free implies world.no_comps_at(
                j,
            ) by {
                assert(pre.no_comps_at(j));
            }
            assert forall|t: int|
                #![trigger rows@[t]]
                0 <= t < k + 1 && (forall|t2: int| t < t2 < k + 1 ==> rows@[t2].0 != rows@[t].0)
                implies (world.viewsheds@[rows@[t].0 as int] matches Some(v2) && v2.range
                == rows@[t].1.range && v2.dirty == rows@[t].1.dirty && v2.visible_tiles@
                == rows@[t].1.visible_tiles@) by {
                if t < k {
                    assert(rows@[t].0 != rows@[k as int].0);
                    assert(world.viewsheds@[rows@[t].0 as int] == pre.viewsheds@[rows@[t].0 as int]);
                }
            }
        }
        k = k + 1;
    }
}

/// Attaches the damage-accumulator table (amount-preserving copies); with
/// duplicate keys the last row wins.
fn attach_suffering_table(world: &mut World, rows: &Vec<(u64, SufferDamage)>, count: usize)
    requires
        old(world).wf(),
        old(world).n() == count,
        forall|t: int| 0 <= t < rows@.len() ==> #[trigger] rows@[t].0 < count,
        forall|j: int|
            #![trigger old(world).slots@[j]]
            0 <= j < count ==> !(old(world).slots@[j].state is Free),
    ensures
        final(world).wf(),
        final(world).n() == count,
        final(world).slots@ == old(world).slots@,
        final(world).positions@ == old(world).positions@,
        final(world).renderables@ == old(world).renderables@,
        final(world).names@ == old(world).names@,
        final(world).blockers@ == old(world).blockers@,
        final(world).items@ == old(world).items@,
        final(world).backpacks@ == old(world).backpacks@,
        final(world).pickup_intents@ == old(world).pickup_intents@,
        final(world).healing@ == old(world).healing@,
        final(world).consumables@ == old(world).consumables@,
        final(world).use_intents@ == old(world).use_intents@,
        final(world).drop_intents@ == old(world).drop_intents@,
        final(world).speeds@ == old(world).speeds@,
        final(world).combat_stats@ == old(world).combat_stats@,
        final(world).melee_intents@ == old(world).melee_intents@,
        final(world).ranged@ == old(world).ranged@,
        final(world).inflicts@ == old(world).inflicts@,
        final(world).players@ == old(world).players@,
        final(world).viewsheds@ == old(world).viewsheds@,
        final(world).monsters@ == old(world).monsters@,
        final(world).markers@ == old(world).markers@,
        final(world).helpers@ == old(world).helpers@,
        forall|t: int|
            #![trigger rows@[t]]
            0 <= t < rows@.len() && (forall|t2: int| t < t2 < rows@.len() ==> rows@[t2].0
                != rows@[t].0) ==> (final(world).suffering@[rows@[t].0 as int] matches Some(s)
                && s.amount@ == rows@[t].1.amount@),
{
    let tn = rows.len();
    let mut k: usize = 0;
    while k < tn
        invariant
            world.wf(),
            world.n() == count,
            tn == rows@.len(),
            k <= tn,
            forall|t: int| 0 <= t < tn ==> #[trigger] rows@[t].0 < count,
            forall|j: int|
                #![trigger world.slots@[j]]
                0 <= j < count ==> !(world.slots@[j].state is Free),
            world.slots@ == old(world).slots@,
            world.positions@ == old(world).positions@,
            world.renderables@ == old(world).renderables@,
            world.names@ == old(world).names@,
            world.blockers@ == old(world).blockers@,
            world.items@ == old(world).items@,
            world.backpacks@ == old(world).backpacks@,
            world.pickup_intents@ == old(world).pickup_intents@,
            world.healing@ == old(world).healing@,
            world.consumables@ == old(world).consumables@,
            world.use_intents@ == old(world).use_intents@,
            world.drop_intents@ == old(world).drop_intents@,
            world.speeds@ == old(world).speeds@,
            world.combat_stats@ == old(world).combat_stats@,
            world.melee_intents@ == old(world).melee_intents@,
            world.ranged@ == old(world).ranged@,
            world.inflicts@ == old(world).inflicts@,
            world.players@ == old(world).players@,
            world.viewsheds@ == old(world).viewsheds@,
            world.monsters@ == old(world).monsters@,
            world.markers@ == old(world).markers@,
            world.helpers@ == old(world).helpers@,
            forall|t: int|
                #![trigger rows@[t]]
                0 <= t < k && (forall|t2: int| t < t2 < k ==> rows@[t2].0 != rows@[t].0) ==> (
                world.suffering@[rows@[t].0 as int] matches Some(s) && s.amount@
                    == rows@[t].1.amount@),
        decreases tn - k,
    {
        let ghost pre = *world;
        let id = rows[k].0 as usize;
        let v = &rows[k].1;
        world.suffering.set(id, Some(SufferDamage { amount: crate::util::copy_vec(&v.amount) }));
        proof {
            assert forall|j: int|
                0 <= j < world.n() && world.slots@[j].state is Free implies world.no_comps_at(
                j,
            ) by {
                assert(pre.no_comps_at(j));
            }
            assert forall|t: int|
                #![trigger rows@[t]]
                0 <= t < k + 1 && (forall|t2: int| t < t2 < k + 1 ==> rows@[t2].0 != rows@[t].0)
                implies (world.suffering@[rows@[t].0 as int] matches Some(s) && s.amount@
                == rows@[t].1.amount@) by {
                if t < k {
                    assert(rows@[t].0 != rows@[k as int].0);
                    assert(world.suffering@[rows@[t].0 as int] == pre.suffering@[rows@[t].0 as int]);
                }
            }
        }
        k = k + 1;
    }
}

/// Attaches the pickup table, rewriting both references; with duplicate keys
/// the last row wins.
fn attach_pickup_table(world: &mut World, rows: &Vec<(u64, u64, u64)>, count: usize)
    requires
        old(world).wf(),
        old(world).n() == count,
        forall|t: int|
            0 <= t < rows@.len() ==> #[trigger] rows@[t].0 < count && rows@[t].1 < count
                && rows@[t].2 < count,
        forall|j: int|
            #![trigger old(world).slots@[j]]
            0 <= j < count ==> !(old(world).slots@[j].state is Free),
    ensures
        final(world).wf(),
        final(world).n() == count,
        final(world).slots@ == old(world).slots@,
        final(world).positions@ == old(world).positions@,
        final(world).renderables@ == old(world).renderables@,
        final(world).names@ == old(world).names@,
        final(world).blockers@ == old(world).blockers@,
        final(world).items@ == old(world).items@,
        final(world).backpacks@ == old(world).backpacks@,
        final(world).healing@ == old(world).healing@,
        final(world).consumables@ == old(world).consumables@,
        final(world).use_intents@ == old(world).use_intents@,
        final(world).drop_intents@ == old(world).drop_intents@,
        final(world).speeds@ == old(world).speeds@,
        final(world).combat_stats@ == old(world).combat_stats@,
        final(world).melee_intents@ == old(world).melee_intents@,
        final(world).ranged@ == old(world).ranged@,
        final(world).inflicts@ == old(world).inflicts@,
        final(world).suffering@ == old(world).suffering@,
        final(world).players@ == old(world).players@,
        final(world).viewsheds@ == old(world).viewsheds@,
        final(world).monsters@ == old(world).monsters@,
        final(world).markers@ == old(world).markers@,
        final(world).helpers@ == old(world).helpers@,
        forall|t: int|
            #![trigger rows@[t]]
            0 <= t < rows@.len() && (forall|t2: int| t < t2 < rows@.len() ==> rows@[t2].0
                != rows@[t].0) ==> final(world).pickup_intents@[rows@[t].0 as int] == Some(
                WantsToPickupItem {
                    collected_by: Entity { index: rows@[t].1 as usize, gen: 0 },
                    item: Entity { index: rows@[t].2 as usize, gen: 0 },
                },
            ),
{
    let tn = rows.len();
    let mut k: usize = 0;
    while k < tn
        invariant
            world.wf(),
            world.n() == count,
            tn == rows@.len(),
            k <= tn,
            forall|t: int|
                0 <= t < tn ==> #[trigger] rows@[t].0 < count && rows@[t].1 < count && rows@[t].2
                    < count,
            forall|j: int|
                #![trigger world.slots@[j]]
                0 <= j < count ==> !(world.slots@[j].state is Free),
            world.slots@ == old(world).slots@,
            world.positions@ == old(world).positions@,
            world.renderables@ == old(world).renderables@,
            world.names@ == old(world).names@,
            world.blockers@ == old(world).blockers@,
            world.items@ == old(world).items@,
            world.backpacks@ == old(world).backpacks@,
            world.healing@ == old(world).healing@,
            world.consumables@ == old(world).consumables@,
            world.use_intents@ == old(world).use_intents@,
            world.drop_intents@ == old(world).drop_intents@,
            world.speeds@ == old(world).speeds@,
            world.combat_stats@ == old(world).combat_stats@,
            world.melee_intents@ == old(world).melee_intents@,
            world.ranged@ == old(world).ranged@,
            world.inflicts@ == old(world).inflicts@,
            world.suffering@ == old(world).suffering@,
            world.players@ == old(world).players@,
            world.viewsheds@ == old(world).viewsheds@,
            world.monsters@ == old(world).monsters@,
            world.markers@ == old(world).markers@,
            world.helpers@ == old(world).helpers@,
            forall|t: int|
                #![trigger rows@[t]]
                0 <= t < k && (forall|t2: int| t < t2 < k ==> rows@[t2].0 != rows@[t].0)
                    ==> world.pickup_intents@[rows@[t].0 as int] == Some(
                    WantsToPickupItem {
                        collected_by: Entity { index: rows@[t].1 as usize, gen: 0 },
                        item: Entity { index: rows@[t].2 as usize, gen: 0 },
                    },
                ),
        decreases tn - k,
    {
        let ghost pre = *world;
        let id = rows[k].0 as usize;
        let cid = rows[k].1 as usize;
        let iid = rows[k].2 as usize;
        world.pickup_intents.set(
            id,
            Some(
                WantsToPickupItem {
                    collected_by: Entity { index: cid, gen: 0 },
                    item: Entity { index: iid, gen: 0 },
                },
            ),
        );
        proof {
            assert forall|j: int|
                0 <= j < world.n() && world.slots@[j].state is Free implies world.no_comps_at(
                j,
            ) by {
                assert(pre.no_comps_at(j));
            }
            assert forall|t: int|
                #![trigger rows@[t]]
                0 <= t < k + 1 && (forall|t2: int| t < t2 < k + 1 ==> rows@[t2].0 != rows@[t].0)
                implies world.pickup_intents@[rows@[t].0 as int] == Some(
                WantsToPickupItem {
                    collected_by: Entity { index: rows@[t].1 as usize, gen: 0 },
                    item: Entity { index: rows@[t].2 as usize, gen: 0 },
                },
            ) by {
                if t < k {
                    assert(rows@[t].0 != rows@[k as int].0);
                    assert(world.pickup_intents@[rows@[t].0 as int] == pre.pickup_intents@[rows@[t].0 as int]);
                }
            }
        }
        k = k + 1;
    }
}

/// The full id range, for tagging every re-created entity as persistent.
fn all_fresh_ids(count: usize) -> (out: Vec<u64>)
    ensures
        out@.len() == count,
        forall|t: int| 0 <= t < out@.len() ==> #[trigger] out@[t] == t,
        forall|t: int| 0 <= t < out@.len() ==> #[trigger] out@[t] < count,
{
    let mut out: Vec<u64> = Vec::new();
    let mut i: usize = 0;
    while i < count
        invariant
            i <= count,
            out@.len() == i,
            forall|t: int| 0 <= t < out@.len() ==> #[trigger] out@[t] == t,
            forall|t: int| 0 <= t < out@.len() ==> #[trigger] out@[t] < count,
        decreases count - i,
    {
        out.push(i as u64);
        i = i + 1;
    }
    out
}

/// Attaches the name table; with duplicate keys the last row wins.
fn attach_names(world: &mut World, rows: &Vec<(u64, Name)>, count: usize)
    requires
        old(world).wf(),
        old(world).n() == count,
        forall|t: int| 0 <= t < rows@.len() ==> #[trigger] rows@[t].0 < count,
        forall|j: int|
            #![trigger old(world).slots@[j]]
            0 <= j < count ==> !(old(world).slots@[j].state is Free),
    ensures
        final(world).wf(),
        final(world).n() == count,
        final(world).slots@ == old(world).slots@,
        final(world).positions@ == old(world).positions@,
        final(world).renderables@ == old(world).renderables@,
        final(world).blockers@ == old(world).blockers@,
        final(world).items@ == old(world).items@,
        final(world).backpacks@ == old(world).backpacks@,
        final(world).pickup_intents@ == old(world).pickup_intents@,
        final(world).healing@ == old(world).healing@,
        final(world).consumables@ == old(world).consumables@,
        final(world).use_intents@ == old(world).use_intents@,
        final(world).drop_intents@ == old(world).drop_intents@,
        final(world).speeds@ == old(world).speeds@,
        final(world).combat_stats@ == old(world).combat_stats@,
        final(world).melee_intents@ == old(world).melee_intents@,
        final(world).ranged@ == old(world).ranged@,
        final(world).inflicts@ == old(world).inflicts@,
        final(world).suffering@ == old(world).suffering@,
        final(world).players@ == old(world).players@,
        final(world).viewsheds@ == old(world).viewsheds@,
        final(world).monsters@ == old(world).monsters@,
        final(world).markers@ == old(world).markers@,
        final(world).helpers@ == old(world).helpers@,
        forall|t: int|
            #![trigger rows@[t]]
            0 <= t < rows@.len() && (forall|t2: int| t < t2 < rows@.len() ==> rows@[t2].0
                != rows@[t].0) ==> (final(world).names@[rows@[t].0 as int] matches Some(nm)
                && nm.name@ == rows@[t].1.name@),
{
    let tn = rows.len();
    let mut k: usize = 0;
    while k < tn
        invariant
            world.wf(),
            world.n() == count,
            tn == rows@.len(),
            k <= tn,
            forall|t: int| 0 <= t < tn ==> #[trigger] rows@[t].0 < count,
            forall|j: int|
                #![trigger world.slots@[j]]
                0 <= j < count ==> !(world.slots@[j].state is Free),
            world.slots@ == old(world).slots@,
            world.positions@ == old(world).positions@,
            world.renderables@ == old(world).renderables@,
            world.blockers@ == old(world).blockers@,
            world.items@ == old(world).items@,
            world.backpacks@ == old(world).backpacks@,
            world.pickup_intents@ == old(world).pickup_intents@,
            world.healing@ == old(world).healing@,
            world.consumables@ == old(world).consumables@,
            world.use_intents@ == old(world).use_intents@,
            world.drop_intents@ == old(world).drop_intents@,
            world.speeds@ == old(world).speeds@,
            world.combat_stats@ == old(world).combat_stats@,
            world.melee_intents@ == old(world).melee_intents@,
            world.ranged@ == old(world).ranged@,
            world.inflicts@ == old(world).inflicts@,
            world.suffering@ == old(world).suffering@,
            world.players@ == old(world).players@,
            world.viewsheds@ == old(world).viewsheds@,
            world.monsters@ == old(world).monsters@,
            world.markers@ == old(world).markers@,
            world.helpers@ == old(world).helpers@,
            forall|t: int|
                #![trigger rows@[t]]
                0 <= t < k && (forall|t2: int| t < t2 < k ==> rows@[t2].0 != rows@[t].0) ==> (
                world.names@[rows@[t].0 as int] matches Some(nm) && nm.name@ == rows@[t].1.name@),
        decreases tn - k,
    {
        let ghost pre = *world;
        let id = rows[k].0 as usize;
        world.names.set(id, Some(rows[k].1.duplicate()));
        proof {
            assert forall|j: int|
                0 <= j < world.n() && world.slots@[j].state is Free implies world.no_comps_at(
                j,
            ) by {
                assert(pre.no_comps_at(j));
            }
            assert forall|t: int|
                #![trigger rows@[t]]
                0 <= t < k + 1 && (forall|t2: int| t < t2 < k + 1 ==> rows@[t2].0 != rows@[t].0)
                implies (world.names@[rows@[t].0 as int] matches Some(nm) && nm.name@
                == rows@[t].1.name@) by {
                if t < k {
                    assert(rows@[t].0 != rows@[k as int].0);
                    assert(world.names@[rows@[t].0 as int] == pre.names@[rows@[t].0 as int]);
                }
            }
        }
        k = k + 1;
    }
}

/// Attaches the combat-stats table; with duplicate keys the last row wins.
fn attach_stats(world: &mut World, rows: &Vec<(u64, CombatStats)>, count: usize)
    requires
        old(world).wf(),
        old(world).n() == count,
        forall|t: int| 0 <= t < rows@.len() ==> #[trigger] rows@[t].0 < count,
        forall|j: int|
            #![trigger old(world).slots@[j]]
            0 <= j < count ==> !(old(world).slots@[j].state is Free),
    ensures
        final(world).wf(),
        final(world).n() == count,
        final(world).slots@ == old(world).slots@,
        final(world).positions@ == old(world).positions@,
        final(world).renderables@ == old(world).renderables@,
        final(world).names@ == old(world).names@,
        final(world).blockers@ == old(world).blockers@,
        final(world).items@ == old(world).items@,
        final(world).backpacks@ == old(world).backpacks@,
        final(world).pickup_intents@ == old(world).pickup_intents@,
        final(world).healing@ == old(world).healing@,
        final(world).consumables@ == old(world).consumables@,
        final(world).use_intents@ == old(world).use_intents@,
        final(world).drop_intents@ == old(world).drop_intents@,
        final(world).speeds@ == old(world).speeds@,
        final(world).melee_intents@ == old(world).melee_intents@,
        final(world).ranged@ == old(world).ranged@,
        final(world).inflicts@ == old(world).inflicts@,
        final(world).suffering@ == old(world).suffering@,
        final(world).players@ == old(world).players@,
        final(world).viewsheds@ == old(world).viewsheds@,
        final(world).monsters@ == old(world).monsters@,
        final(world).markers@ == old(world).markers@,
        final(world).helpers@ == old(world).helpers@,
        forall|t: int|
            #![trigger rows@[t]]
            0 <= t < rows@.len() && (forall|t2: int| t < t2 < rows@.len() ==> rows@[t2].0
                != rows@[t].0) ==> final(world).combat_stats@[rows@[t].0 as int] == Some(
                rows@[t].1,
            ),
{
    let tn = rows.len();
    let mut k: usize = 0;
    while k < tn
        invariant
            world.wf(),
            world.n() == count,
            tn == rows@.len(),
            k <= tn,
            forall|t: int| 0 <= t < tn ==> #[trigger] rows@[t].0 < count,
            forall|j: int|
                #![trigger world.slots@[j]]
                0 <= j < count ==> !(world.slots@[j].state is Free),
            world.slots@ == old(world).slots@,
            world.positions@ == old(world).positions@,
            world.renderables@ == old(world).renderables@,
            world.names@ == old(world).names@,
            world.blockers@ == old(world).blockers@,
            world.items@ == old(world).items@,
            world.backpacks@ == old(world).backpacks@,
            world.pickup_intents@ == old(world).pickup_intents@,
            world.healing@ == old(world).healing@,
            world.consumables@ == old(world).consumables@,
            world.use_intents@ == old(world).use_intents@,
            world.drop_intents@ == old(world).drop_intents@,
            world.speeds@ == old(world).speeds@,
            world.melee_intents@ == old(world).melee_intents@,
            world.ranged@ == old(world).ranged@,
            world.inflicts@ == old(world).inflicts@,
            world.suffering@ == old(world).suffering@,
            world.players@ == old(world).players@,
            world.viewsheds@ == old(world).viewsheds@,
            world.monsters@ == old(world).monsters@,
            world.markers@ == old(world).markers@,
            world.helpers@ == old(world).helpers@,
            forall|t: int|
                #![trigger rows@[t]]
                0 <= t < k && (forall|t2: int| t < t2 < k ==> rows@[t2].0 != rows@[t].0)
                    ==> world.combat_stats@[rows@[t].0 as int] == Some(rows@[t].1),
        decreases tn - k,
    {
        let ghost pre = *world;
        let id = rows[k].0 as usize;
        world.combat_stats.set(id, Some(rows[k].1));
        proof {
            assert forall|j: int|
                0 <= j < world.n() && world.slots@[j].state is Free implies world.no_comps_at(
                j,
            ) by {
                assert(pre.no_comps_at(j));
            }
            assert forall|t: int|
                #![trigger rows@[t]]
                0 <= t < k + 1 && (forall|t2: int| t < t2 < k + 1 ==> rows@[t2].0 != rows@[t].0)
                implies world.combat_stats@[rows@[t].0 as int] == Some(rows@[t].1) by {
                if t < k {
                    assert(rows@[t].0 != rows@[k as int].0);
                    assert(world.combat_stats@[rows@[t].0 as int] == pre.combat_stats@[rows@[t].0 as int]);
                }
            }
        }
        k = k + 1;
    }
}

/// Attaches the backpack table, rewriting owner ids to fresh handles; with
/// duplicate keys the last row wins.
fn attach_backpacks(world: &mut World, rows: &Vec<(u64, u64)>, count: usize)
    requires
        old(world).wf(),
        old(world).n() == count,
        forall|t: int| 0 <= t < rows@.len() ==> #[trigger] rows@[t].0 < count && rows@[t].1 < count,
        forall|j: int|
            #![trigger old(world).slots@[j]]
            0 <= j < count ==> !(old(world).slots@[j].state is Free),
    ensures
        final(world).wf(),
        final(world).n() == count,
        final(world).slots@ == old(world).slots@,
        final(world).positions@ == old(world).positions@,
        final(world).renderables@ == old(world).renderables@,
        final(world).names@ == old(world).names@,
        final(world).blockers@ == old(world).blockers@,
        final(world).items@ == old(world).items@,
        final(world).pickup_intents@ == old(world).pickup_intents@,
        final(world).healing@ == old(world).healing@,
        final(world).consumables@ == old(world).consumables@,
        final(world).use_intents@ == old(world).use_intents@,
        final(world).drop_intents@ == old(world).drop_intents@,
        final(world).speeds@ == old(world).speeds@,
        final(world).combat_stats@ == old(world).combat_stats@,
        final(world).melee_intents@ == old(world).melee_intents@,
        final(world).ranged@ == old(world).ranged@,
        final(world).inflicts@ == old(world).inflicts@,
        final(world).suffering@ == old(world).suffering@,
        final(world).players@ == old(world).players@,
        final(world).viewsheds@ == old(world).viewsheds@,
        final(world).monsters@ == old(world).monsters@,
        final(world).markers@ == old(world).markers@,
        final(world).helpers@ == old(world).helpers@,
        forall|t: int|
            #![trigger rows@[t]]
            0 <= t < rows@.len() && (forall|t2: int| t < t2 < rows@.len() ==> rows@[t2].0
                != rows@[t].0) ==> final(world).backpacks@[rows@[t].0 as int] == Some(
                InBackpack { owner: Entity { index: rows@[t].1 as usize, gen: 0 } },
            ),
{
    let tn = rows.len();
    let mut k: usize = 0;
    while k < tn
        invariant
            world.wf(),
            world.n() == count,
            tn == rows@.len(),
            k <= tn,
            forall|t: int| 0 <= t < tn ==> #[trigger] rows@[t].0 < count && rows@[t].1 < count,
            forall|j: int|
                #![trigger world.slots@[j]]
                0 <= j < count ==> !(world.slots@[j].state is Free),
            world.slots@ == old(world).slots@,
            world.positions@ == old(world).positions@,
            world.renderables@ == old(world).renderables@,
            world.names@ == old(world).names@,
            world.blockers@ == old(world).blockers@,
            world.items@ == old(world).items@,
            world.pickup_intents@ == old(world).pickup_intents@,
            world.healing@ == old(world).healing@,
            world.consumables@ == old(world).consumables@,
            world.use_intents@ == old(world).use_intents@,
            world.drop_intents@ == old(world).drop_intents@,
            world.speeds@ == old(world).speeds@,
            world.combat_stats@ == old(world).combat_stats@,
            world.melee_intents@ == old(world).melee_intents@,
            world.ranged@ == old(world).ranged@,
            world.inflicts@ == old(world).inflicts@,
            world.suffering@ == old(world).suffering@,
            world.players@ == old(world).players@,
            world.viewsheds@ == old(world).viewsheds@,
            world.monsters@ == old(world).monsters@,
            world.markers@ == old(world).markers@,
            world.helpers@ == old(world).helpers@,
            forall|t: int|
                #![trigger rows@[t]]
                0 <= t < k && (forall|t2: int| t < t2 < k ==> rows@[t2].0 != rows@[t].0)
                    ==> world.backpacks@[rows@[t].0 as int] == Some(
                    InBackpack { owner: Entity { index: rows@[t].1 as usize, gen: 0 } },
                ),
        decreases tn - k,
    {
        let ghost pre = *world;
        let id = rows[k].0 as usize;
        let oid = rows[k].1 as usize;
        world.backpacks.set(id, Some(InBackpack { owner: Entity { index: oid, gen: 0 } }));
        proof {
            assert forall|j: int|
                0 <= j < world.n() && world.slots@[j].state is Free implies world.no_comps_at(
                j,
            ) by {
                assert(pre.no_comps_at(j));
            }
            assert forall|t: int|
                #![trigger rows@[t]]
                0 <= t < k + 1 && (forall|t2: int| t < t2 < k + 1 ==> rows@[t2].0 != rows@[t].0)
                implies world.backpacks@[rows@[t].0 as int] == Some(
                InBackpack { owner: Entity { index: rows@[t].1 as usize, gen: 0 } },
            ) by {
                if t < k {
                    assert(rows@[t].0 != rows@[k as int].0);
                    assert(world.backpacks@[rows@[t].0 as int] == pre.backpacks@[rows@[t].0 as int]);
                }
            }
        }
        k = k + 1;
    }
}

/// Attaches the melee-intent table, rewriting target ids to fresh handles;
/// with duplicate keys the last row wins.
fn attach_melee(world: &mut World, rows: &Vec<(u64, u64)>, count: usize)
    requires
        old(world).wf(),
        old(world).n() == count,
        forall|t: int| 0 <= t < rows@.len() ==> #[trigger] rows@[t].0 < count && rows@[t].1 < count,
        forall|j: int|
            #![trigger old(world).slots@[j]]
            0 <= j < count ==> !(old(world).slots@[j].state is Free),
    ensures
        final(world).wf(),
        final(world).n() == count,
        final(world).slots@ == old(world).slots@,
        final(world).positions@ == old(world).positions@,
        final(world).renderables@ == old(world).renderables@,
        final(world).names@ == old(world).names@,
        final(world).blockers@ == old(world).blockers@,
        final(world).items@ == old(world).items@,
        final(world).backpacks@ == old(world).backpacks@,
        final(world).pickup_intents@ == old(world).pickup_intents@,
        final(world).healing@ == old(world).healing@,
        final(world).consumables@ == old(world).consumables@,
        final(world).use_intents@ == old(world).use_intents@,
        final(world).drop_intents@ == old(world).drop_intents@,
        final(world).speeds@ == old(world).speeds@,
        final(world).combat_stats@ == old(world).combat_stats@,
        final(world).ranged@ == old(world).ranged@,
        final(world).inflicts@ == old(world).inflicts@,
        final(world).suffering@ == old(world).suffering@,
        final(world).players@ == old(world).players@,
        final(world).viewsheds@ == old(world).viewsheds@,
        final(world).monsters@ == old(world).monsters@,
        final(world).markers@ == old(world).markers@,
        final(world).helpers@ == old(world).helpers@,
        forall|t: int|
            #![trigger rows@[t]]
            0 <= t < rows@.len() && (forall|t2: int| t < t2 < rows@.len() ==> rows@[t2].0
                != rows@[t].0) ==> final(world).melee_intents@[rows@[t].0 as int] == Some(
                WantsToMelee { target: Entity { index: rows@[t].1 as usize, gen: 0 } },
            ),
{
    let tn = rows.len();
    let mut k: usize = 0;
    while k < tn
        invariant
            world.wf(),
            world.n() == count,
            tn == rows@.len(),
            k <= tn,
            forall|t: int| 0 <= t < tn ==> #[trigger] rows@[t].0 < count && rows@[t].1 < count,
            forall|j: int|
                #![trigger world.slots@[j]]
                0 <= j < count ==> !(world.slots@[j].state is Free),
            world.slots@ == old(world).slots@,
            world.positions@ == old(world).positions@,
            world.renderables@ == old(world).renderables@,
            world.names@ == old(world).names@,
            world.blockers@ == old(world).blockers@,
            world.items@ == old(world).items@,
            world.backpacks@ == old(world).backpacks@,
            world.pickup_intents@ == old(world).pickup_intents@,
            world.healing@ == old(world).healing@,
            world.consumables@ == old(world).consumables@,
            world.use_intents@ == old(world).use_intents@,
            world.drop_intents@ == old(world).drop_intents@,
            world.speeds@ == old(world).speeds@,
            world.combat_stats@ == old(world).combat_stats@,
            world.ranged@ == old(world).ranged@,
            world.inflicts@ == old(world).inflicts@,
            world.suffering@ == old(world).suffering@,
            world.players@ == old(world).players@,
            world.viewsheds@ == old(world).viewsheds@,
            world.monsters@ == old(world).monsters@,
            world.markers@ == old(world).markers@,
            world.helpers@ == old(world).helpers@,
            forall|t: int|
                #![trigger rows@[t]]
                0 <= t < k && (forall|t2: int| t < t2 < k ==> rows@[t2].0 != rows@[t].0)
                    ==> world.melee_intents@[rows@[t].0 as int] == Some(
                    WantsToMelee { target: Entity { index: rows@[t].1 as usize, gen: 0 } },
                ),
        decreases tn - k,
    {
        let ghost pre = *world;
        let id = rows[k].0 as usize;
        let tid = rows[k].1 as usize;
        world.melee_intents.set(id, Some(WantsToMelee { target: Entity { index: tid, gen: 0 } }));
        proof {
            assert forall|j: int|
                0 <= j < world.n() && world.slots@[j].state is Free implies world.no_comps_at(
                j,
            ) by {
                assert(pre.no_comps_at(j));
            }
            assert forall|t: int|
                #![trigger rows@[t]]
                0 <= t < k + 1 && (forall|t2: int| t < t2 < k + 1 ==> rows@[t2].0 != rows@[t].0)
                implies world.melee_intents@[rows@[t].0 as int] == Some(
                WantsToMelee { target: Entity { index: rows@[t].1 as usize, gen: 0 } },
            ) by {
                if t < k {
                    assert(rows@[t].0 != rows@[k as int].0);
                    assert(world.melee_intents@[rows@[t].0 as int] == pre.melee_intents@[rows@[t].0 as int]);
                }
            }
        }
        k = k + 1;
    }
}

/// Ids in the saved name table are strictly increasing and below the total
/// mark count.
pub proof fn lemma_saved_names_sorted(w: World, i: int)
    requires
        0 <= i <= u64::MAX,
    ensures
        forall|k: int|
            0 <= k < saved_names(w, i).len() ==> (#[trigger] saved_names(w, i)[k].0) < mark_count(
                w,
                i,
            ),
        forall|k1: int, k2: int|
            0 <= k1 < k2 < saved_names(w, i).len() ==> saved_names(w, i)[k1].0 < saved_names(
                w,
                i,
            )[k2].0,
    decreases i,
{
    if i > 0 {
        lemma_saved_names_sorted(w, i - 1);
        lemma_mark_count_bounds(w, i - 1);
        assert forall|k: int|
            0 <= k < saved_names(w, i).len() implies (#[trigger] saved_names(w, i)[k].0)
            < mark_count(w, i) by {
            if k < saved_names(w, i - 1).len() {
                assert(saved_names(w, i)[k] == saved_names(w, i - 1)[k]);
            }
        }
        assert forall|k1: int, k2: int|
            0 <= k1 < k2 < saved_names(w, i).len() implies saved_names(w, i)[k1].0 < saved_names(
            w,
            i,
        )[k2].0 by {
            assert(saved_names(w, i)[k1] == saved_names(w, i - 1)[k1]);
            if k2 < saved_names(w, i - 1).len() {
                assert(saved_names(w, i)[k2] == saved_names(w, i - 1)[k2]);
            } else {
                assert(saved_names(w, i)[k2] == (mark_count(w, i - 1) as u64, w.names@[i - 1]->Some_0));
            }
        }
    }
}

/// A marked, named slot appears in the saved name table under its mark id.
pub proof fn lemma_saved_names_member(w: World, i: int, n: int)
    requires
        0 <= i < n <= u64::MAX,
        marked(w, i),
        w.names@[i] is Some,
    ensures
        exists|k: int|
            0 <= k < saved_names(w, n).len() && #[trigger] saved_names(w, n)[k] == (
                mark_count(w, i) as u64,
                w.names@[i]->Some_0,
            ),
    decreases n,
{
    lemma_mark_count_bounds(w, i);
    if i == n - 1 {
        assert(saved_names(w, n).last() == (mark_count(w, i) as u64, w.names@[i]->Some_0));
    } else {
        lemma_saved_names_member(w, i, n - 1);
        let k = choose|k: int|
            0 <= k < saved_names(w, n - 1).len() && #[trigger] saved_names(w, n - 1)[k] == (
                mark_count(w, i) as u64,
                w.names@[i]->Some_0,
            );
        assert(saved_names(w, n)[k] == saved_names(w, n - 1)[k]);
    }
}

pub proof fn lemma_saved_stats_sorted(w: World, i: int)
    requires
        0 <= i <= u64::MAX,
    ensures
        forall|k: int|
            0 <= k < saved_combat_stats(w, i).len() ==> (#[trigger] saved_combat_stats(w, i)[k].0)
                < mark_count(w, i),
        forall|k1: int, k2: int|
            0 <= k1 < k2 < saved_combat_stats(w, i).len() ==> saved_combat_stats(w, i)[k1].0
                < saved_combat_stats(w, i)[k2].0,
    decreases i,
{
    if i > 0 {
        lemma_saved_stats_sorted(w, i - 1);
        lemma_mark_count_bounds(w, i - 1);
        assert forall|k: int|
            0 <= k < saved_combat_stats(w, i).len() implies (#[trigger] saved_combat_stats(
            w,
            i,
        )[k].0) < mark_count(w, i) by {
            if k < saved_combat_stats(w, i - 1).len() {
                assert(saved_combat_stats(w, i)[k] == saved_combat_stats(w, i - 1)[k]);
            }
        }
        assert forall|k1: int, k2: int|
            0 <= k1 < k2 < saved_combat_stats(w, i).len() implies saved_combat_stats(w, i)[k1].0
            < saved_combat_stats(w, i)[k2].0 by {
            assert(saved_combat_stats(w, i)[k1] == saved_combat_stats(w, i - 1)[k1]);
            if k2 < saved_combat_stats(w, i - 1).len() {
                assert(saved_combat_stats(w, i)[k2] == saved_combat_stats(w, i - 1)[k2]);
            } else {
                assert(saved_combat_stats(w, i)[k2] == (mark_count(w, i - 1) as u64, w.combat_stats@[i - 1]->Some_0));
            }
        }
    }
}

pub proof fn lemma_saved_stats_member(w: World, i: int, n: int)
    requires
        0 <= i < n <= u64::MAX,
        marked(w, i),
        w.combat_stats@[i] is Some,
    ensures
        exists|k: int|
            0 <= k < saved_combat_stats(w, n).len() && #[trigger] saved_combat_stats(w, n)[k] == (
                mark_count(w, i) as u64,
                w.combat_stats@[i]->Some_0,
            ),
    decreases n,
{
    lemma_mark_count_bounds(w, i);
    if i == n - 1 {
        assert(saved_combat_stats(w, n).last() == (
            mark_count(w, i) as u64,
            w.combat_stats@[i]->Some_0,
        ));
    } else {
        lemma_saved_stats_member(w, i, n - 1);
        let k = choose|k: int|
            0 <= k < saved_combat_stats(w, n - 1).len() && #[trigger] saved_combat_stats(
                w,
                n - 1,
            )[k] == (mark_count(w, i) as u64, w.combat_stats@[i]->Some_0);
        assert(saved_combat_stats(w, n)[k] == saved_combat_stats(w, n - 1)[k]);
    }
}

pub proof fn lemma_saved_backpacks_sorted(w: World, i: int)
    requires
        0 <= i <= u64::MAX,
    ensures
        forall|k: int|
            0 <= k < saved_backpacks(w, i).len() ==> (#[trigger] saved_backpacks(w, i)[k].0)
                < mark_count(w, i),
        forall|k1: int, k2: int|
            0 <= k1 < k2 < saved_backpacks(w, i).len() ==> saved_backpacks(w, i)[k1].0
                < saved_backpacks(w, i)[k2].0,
    decreases i,
{
    if i > 0 {
        lemma_saved_backpacks_sorted(w, i - 1);
        lemma_mark_count_bounds(w, i - 1);
        assert forall|k: int|
            0 <= k < saved_backpacks(w, i).len() implies (#[trigger] saved_backpacks(w, i)[k].0)
            < mark_count(w, i) by {
            if k < saved_backpacks(w, i - 1).len() {
                assert(saved_backpacks(w, i)[k] == saved_backpacks(w, i - 1)[k]);
            }
        }
        assert forall|k1: int, k2: int|
            0 <= k1 < k2 < saved_backpacks(w, i).len() implies saved_backpacks(w, i)[k1].0
            < saved_backpacks(w, i)[k2].0 by {
            assert(saved_backpacks(w, i)[k1] == saved_backpacks(w, i - 1)[k1]);
            if k2 < saved_backpacks(w, i - 1).len() {
                assert(saved_backpacks(w, i)[k2] == saved_backpacks(w, i - 1)[k2]);
            } else {
                assert(saved_backpacks(w, i)[k2] == (mark_count(w, i - 1) as u64, ref_id(w, w.backpacks@[i - 1]->Some_0.owner) as u64));
            }
        }
    }
}

pub proof fn lemma_saved_backpacks_member(w: World, i: int, n: int)
    requires
        0 <= i < n <= u64::MAX,
        marked(w, i),
        w.backpacks@[i] is Some,
        ref_ok(w, w.backpacks@[i]->Some_0.owner),
    ensures
        exists|k: int|
            0 <= k < saved_backpacks(w, n).len() && #[trigger] saved_backpacks(w, n)[k] == (
                mark_count(w, i) as u64,
                ref_id(w, w.backpacks@[i]->Some_0.owner) as u64,
            ),
    decreases n,
{
    lemma_mark_count_bounds(w, i);
    lemma_mark_count_bounds(w, w.backpacks@[i]->Some_0.owner.index as int);
    if i == n - 1 {
        assert(saved_backpacks(w, n).last() == (
            mark_count(w, i) as u64,
            ref_id(w, w.backpacks@[i]->Some_0.owner) as u64,
        ));
    } else {
        lemma_saved_backpacks_member(w, i, n - 1);
        let k = choose|k: int|
            0 <= k < saved_backpacks(w, n - 1).len() && #[trigger] saved_backpacks(w, n - 1)[k]
                == (mark_count(w, i) as u64, ref_id(w, w.backpacks@[i]->Some_0.owner) as u64);
        assert(saved_backpacks(w, n)[k] == saved_backpacks(w, n - 1)[k]);
    }
}

pub proof fn lemma_saved_melee_sorted(w: World, i: int)
    requires
        0 <= i <= u64::MAX,
    ensures
        forall|k: int|
            0 <= k < saved_melee_intents(w, i).len() ==> (#[trigger] saved_melee_intents(
                w,
                i,
            )[k].0) < mark_count(w, i),
        forall|k1: int, k2: int|
            0 <= k1 < k2 < saved_melee_intents(w, i).len() ==> saved_melee_intents(w, i)[k1].0
                < saved_melee_intents(w, i)[k2].0,
    decreases i,
{
    if i > 0 {
        lemma_saved_melee_sorted(w, i - 1);
        lemma_mark_count_bounds(w, i - 1);
        assert forall|k: int|
            0 <= k < saved_melee_intents(w, i).len() implies (#[trigger] saved_melee_intents(
            w,
            i,
        )[k].0) < mark_count(w, i) by {
            if k < saved_melee_intents(w, i - 1).len() {
                assert(saved_melee_intents(w, i)[k] == saved_melee_intents(w, i - 1)[k]);
            }
        }
        assert forall|k1: int, k2: int|
            0 <= k1 < k2 < saved_melee_intents(w, i).len() implies saved_melee_intents(w, i)[k1].0
            < saved_melee_intents(w, i)[k2].0 by {
            assert(saved_melee_intents(w, i)[k1] == saved_melee_intents(w, i - 1)[k1]);
            if k2 < saved_melee_intents(w, i - 1).len() {
                assert(saved_melee_intents(w, i)[k2] == saved_melee_intents(w, i - 1)[k2]);
            } else {
                assert(saved_melee_intents(w, i)[k2] == (mark_count(w, i - 1) as u64, ref_id(w, w.melee_intents@[i - 1]->Some_0.target) as u64));
            }
        }
    }
}

pub proof fn lemma_saved_melee_member(w: World, i: int, n: int)
    requires
        0 <= i < n <= u64::MAX,
        marked(w, i),
        w.melee_intents@[i] is Some,
        ref_ok(w, w.melee_intents@[i]->Some_0.target),
    ensures
        exists|k: int|
            0 <= k < saved_melee_intents(w, n).len() && #[trigger] saved_melee_intents(w, n)[k]
                == (mark_count(w, i) as u64, ref_id(w, w.melee_intents@[i]->Some_0.target) as u64),
    decreases n,
{
    lemma_mark_count_bounds(w, i);
    lemma_mark_count_bounds(w, w.melee_intents@[i]->Some_0.target.index as int);
    if i == n - 1 {
        assert(saved_melee_intents(w, n).last() == (
            mark_count(w, i) as u64,
            ref_id(w, w.melee_intents@[i]->Some_0.target) as u64,
        ));
    } else {
        lemma_saved_melee_member(w, i, n - 1);
        let k = choose|k: int|
            0 <= k < saved_melee_intents(w, n - 1).len() && #[trigger] saved_melee_intents(
                w,
                n - 1,
            )[k] == (mark_count(w, i) as u64, ref_id(w, w.melee_intents@[i]->Some_0.target) as u64);
        assert(saved_melee_intents(w, n)[k] == saved_melee_intents(w, n - 1)[k]);
    }
}

/// Save/load round trip. For a world whose only helper entity is the
/// ephemeral one the save itself creates: every marked, named entity with
/// combat stats reappears after a load under its marker id, as a live entity
/// carrying the same name and the same stats; an item held in a backpack
/// whose owner is marked reappears holding the owner's new handle; and a
/// pending melee intent whose target is marked reappears aiming at the
/// target's new handle.
pub proof fn lemma_save_load_round_trip(
    w: World,
    sd: SaveData,
    lg: LoadedGame,
    e: int,
    item: int,
    attacker: int,
)
    requires
        // what the save wrote, as save_game ensures it
        sd.names@ == saved_names(w, w.n()),
        sd.combat_stats@ == saved_combat_stats(w, w.n()),
        sd.backpacks@ == saved_backpacks(w, w.n()),
        sd.melee_intents@ == saved_melee_intents(w, w.n()),
        forall|i: int| 0 <= i < w.n() && marked(w, i) ==> w.helpers@[i] is None,
        sd.helpers@.len() == 1 && sd.helpers@[0].0 == mark_count(w, w.n()),
        // what the load rebuilt, as load_game ensures it
        forall|k: int|
            #![trigger sd.names@[k]]
            0 <= k < sd.names@.len() && last_name_row(sd, k) && !is_helper_key(
                sd,
                sd.names@[k].0 as int,
            ) ==> sd.names@[k].0 < lg.world.n() && lg.world.present_at(sd.names@[k].0 as int) && (
            lg.world.names@[sd.names@[k].0 as int] matches Some(nm) && nm.name@
                == sd.names@[k].1.name@) && lg.world.slots@[sd.names@[k].0 as int].gen == 0,
        forall|k: int|
            #![trigger sd.combat_stats@[k]]
            0 <= k < sd.combat_stats@.len() && last_stats_row(sd, k) && !is_helper_key(
                sd,
                sd.combat_stats@[k].0 as int,
            ) ==> sd.combat_stats@[k].0 < lg.world.n() && lg.world.present_at(
                sd.combat_stats@[k].0 as int,
            ) && lg.world.combat_stats@[sd.combat_stats@[k].0 as int] == Some(sd.combat_stats@[k].1)
                && lg.world.slots@[sd.combat_stats@[k].0 as int].gen == 0,
        forall|k: int|
            #![trigger sd.backpacks@[k]]
            0 <= k < sd.backpacks@.len() && last_backpack_row(sd, k) && !is_helper_key(
                sd,
                sd.backpacks@[k].0 as int,
            ) ==> sd.backpacks@[k].0 < lg.world.n() && lg.world.backpacks@[sd.backpacks@[k].0 as int]
                == Some(
                InBackpack { owner: Entity { index: sd.backpacks@[k].1 as usize, gen: 0 } },
            ),
        forall|k: int|
            #![trigger sd.melee_intents@[k]]
            0 <= k < sd.melee_intents@.len() && last_melee_row(sd, k) && !is_helper_key(
                sd,
                sd.melee_intents@[k].0 as int,
            ) ==> sd.melee_intents@[k].0 < lg.world.n() && lg.world.melee_intents@[
                sd.melee_intents@[k].0 as int
            ] == Some(
                WantsToMelee { target: Entity { index: sd.melee_intents@[k].1 as usize, gen: 0 } },
            ),
        // the types' validity: the arena is addressable
        w.n() <= u64::MAX,
        // the entities this law speaks of
        0 <= e < w.n(),
        marked(w, e),
        w.names@[e] is Some,
        w.combat_stats@[e] is Some,
        0 <= item < w.n(),
        marked(w, item),
        w.backpacks@[item] is Some,
        w.backpacks@[item]->Some_0.owner.index == e,
        ref_ok(w, w.backpacks@[item]->Some_0.owner),
        0 <= attacker < w.n(),
        marked(w, attacker),
        w.melee_intents@[attacker] is Some,
        w.melee_intents@[attacker]->Some_0.target.index == e,
        ref_ok(w, w.melee_intents@[attacker]->Some_0.target),
    ensures
        // E's counterpart is live and carries the same name and stats
        lg.world.present_at(mark_count(w, e)),
        lg.world.names@[mark_count(w, e)] matches Some(nm) && nm.name@
            == w.names@[e]->Some_0.name@,
        lg.world.combat_stats@[mark_count(w, e)] == w.combat_stats@[e],
        // the backpack edge and the melee intent now point at that counterpart
        lg.world.backpacks@[mark_count(w, item)] == Some(
            InBackpack { owner: Entity { index: mark_count(w, e) as usize, gen: 0 } },
        ),
        lg.world.melee_intents@[mark_count(w, attacker)] == Some(
            WantsToMelee { target: Entity { index: mark_count(w, e) as usize, gen: 0 } },
        ),
{
    let n = w.n();
    lemma_mark_count_bounds(w, e);
    lemma_mark_count_bounds(w, item);
    lemma_mark_count_bounds(w, attacker);
    lemma_mark_id_distinct(w, e, n);
    lemma_mark_id_distinct(w, item, n);
    lemma_mark_id_distinct(w, attacker, n);
    // names
    lemma_saved_names_sorted(w, n);
    lemma_saved_names_member(w, e, n);
    let nk = choose|k: int|
        0 <= k < saved_names(w, n).len() && #[trigger] saved_names(w, n)[k] == (
            mark_count(w, e) as u64,
            w.names@[e]->Some_0,
        );
    assert(last_name_row(sd, nk));
    assert(!is_helper_key(sd, sd.names@[nk].0 as int)) by {
        if is_helper_key(sd, sd.names@[nk].0 as int) {
            let h = choose|h: int|
                0 <= h < sd.helpers@.len() && sd.helpers@[h].0 == sd.names@[nk].0 as int;
            assert(h == 0);
        }
    }
    // stats
    lemma_saved_stats_sorted(w, n);
    lemma_saved_stats_member(w, e, n);
    let sk = choose|k: int|
        0 <= k < saved_combat_stats(w, n).len() && #[trigger] saved_combat_stats(w, n)[k] == (
            mark_count(w, e) as u64,
            w.combat_stats@[e]->Some_0,
        );
    assert(last_stats_row(sd, sk));
    assert(!is_helper_key(sd, sd.combat_stats@[sk].0 as int)) by {
        if is_helper_key(sd, sd.combat_stats@[sk].0 as int) {
            let h = choose|h: int|
                0 <= h < sd.helpers@.len() && sd.helpers@[h].0 == sd.combat_stats@[sk].0 as int;
            assert(h == 0);
        }
    }
    // backpack
    lemma_saved_backpacks_sorted(w, n);
    lemma_saved_backpacks_member(w, item, n);
    let bk = choose|k: int|
        0 <= k < saved_backpacks(w, n).len() && #[trigger] saved_backpacks(w, n)[k] == (
            mark_count(w, item) as u64,
            ref_id(w, w.backpacks@[item]->Some_0.owner) as u64,
        );
    assert(last_backpack_row(sd, bk));
    assert(!is_helper_key(sd, sd.backpacks@[bk].0 as int)) by {
        if is_helper_key(sd, sd.backpacks@[bk].0 as int) {
            let h = choose|h: int|
                0 <= h < sd.helpers@.len() && sd.helpers@[h].0 == sd.backpacks@[bk].0 as int;
            assert(h == 0);
        }
    }
    assert(ref_id(w, w.backpacks@[item]->Some_0.owner) == mark_count(w, e));
    // melee
    lemma_saved_melee_sorted(w, n);
    lemma_saved_melee_member(w, attacker, n);
    let mk = choose|k: int|
        0 <= k < saved_melee_intents(w, n).len() && #[trigger] saved_melee_intents(w, n)[k] == (
            mark_count(w, attacker) as u64,
            ref_id(w, w.melee_intents@[attacker]->Some_0.target) as u64,
        );
    assert(last_melee_row(sd, mk));
    assert(!is_helper_key(sd, sd.melee_intents@[mk].0 as int)) by {
        if is_helper_key(sd, sd.melee_intents@[mk].0 as int) {
            let h = choose|h: int|
                0 <= h < sd.helpers@.len() && sd.helpers@[h].0 == sd.melee_intents@[mk].0 as int;
            assert(h == 0);
        }
    }
    assert(ref_id(w, w.melee_intents@[attacker]->Some_0.target) == mark_count(w, e));
}

} // verus!
