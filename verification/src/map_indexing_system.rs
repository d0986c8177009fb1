//! The index-rebuild pass: resets the blocked bitmap to the static terrain,
//! empties every cell's occupant list, then walks every positioned entity,
//! recording it in its cell's list and marking the cell blocked if the
//! entity blocks. Afterwards the index is authoritative for this turn.

use vstd::prelude::*;

use crate::entity::Entity;
use crate::entity::SlotState;
use crate::map::GameMap;
use crate::map::TileType;
use crate::world::World;

verus! {

/// Every positioned entity of the world lies on the grid: the caller's
/// obligation before rebuilding the index.
pub open spec fn positions_in_bounds(w: World, m: GameMap) -> bool {
    forall|i: int|
        #![trigger w.positions@[i]]
        0 <= i < w.n() && w.present_at(i) ==> match w.positions@[i] {
            Some(p) => m.spec_in_bounds(p.x as int, p.y as int),
            None => true,
        }
}

/// Entity `i` is present and positioned on cell `c` of a grid `width` wide.
pub open spec fn positioned_at(w: World, width: int, i: int, c: int) -> bool {
    w.present_at(i) && match w.positions@[i] {
        Some(p) => p.y * width + p.x == c,
        None => false,
    }
}

/// Entity `i` is positioned on cell `c` and blocks it.
pub open spec fn blocker_at(w: World, width: int, i: int, c: int) -> bool {
    positioned_at(w, width, i, c) && w.blockers@[i] is Some
}

/// The occupant list of cell `c` after the entities below `upto` have been
/// indexed, in entity-index order.
pub open spec fn content_at(w: World, width: int, c: int, upto: int) -> Seq<Entity>
    decreases upto,
{
    if upto <= 0 {
        Seq::empty()
    } else if positioned_at(w, width, upto - 1, c) {
        content_at(w, width, c, upto - 1).push(w.handle(upto - 1))
    } else {
        content_at(w, width, c, upto - 1)
    }
}

/// Index freshness, membership direction: after the rebuild, every present
/// entity with a position appears in its cell's occupant list.
pub proof fn lemma_content_membership(w: World, width: int, c: int, upto: int, i: int)
    requires
        0 <= i < upto,
        positioned_at(w, width, i, c),
    ensures
        content_at(w, width, c, upto).contains(w.handle(i)),
    decreases upto,
{
    if i == upto - 1 {
        assert(content_at(w, width, c, upto).last() == w.handle(i));
    } else {
        lemma_content_membership(w, width, c, upto - 1, i);
        let s = content_at(w, width, c, upto - 1);
        let k = choose|k: int| 0 <= k < s.len() && s[k] == w.handle(i);
        assert(content_at(w, width, c, upto)[k] == w.handle(i));
    }
}

pub struct MapIndexingSystem {}

impl MapIndexingSystem {
    /// Rebuilds the blocked bitmap and the per-cell occupant lists from the
    /// world's current positions. After this pass, a cell is blocked exactly
    /// when its tile is a wall or some present blocking entity stands on it,
    /// and each cell's occupant list holds exactly the present entities
    /// positioned there, in entity-index order.
    pub fn run(map: &mut GameMap, world: &World)
        requires
            old(map).wf(),
            world.wf(),
            positions_in_bounds(*world, *old(map)),
        ensures
            final(map).wf(),
            final(map).width == old(map).width,
            final(map).height == old(map).height,
            final(map).tiles@ == old(map).tiles@,
            final(map).visible_tiles@ == old(map).visible_tiles@,
            final(map).revealed_tiles@ == old(map).revealed_tiles@,
            forall|c: int|
                #![trigger final(map).blocked@[c]]
                0 <= c < old(map).size() ==> (final(map).blocked@[c] == (old(map).tiles@[c] is Wall
                    || exists|i: int|
                    0 <= i < world.n() && blocker_at(*world, old(map).width as int, i, c))),
            forall|c: int|
                #![trigger final(map).tile_content@[c]]
                0 <= c < old(map).size() ==> final(map).tile_content@[c]@ == content_at(
                    *world,
                    old(map).width as int,
                    c,
                    world.n(),
                ),
            index_rel(*old(map), *final(map), *world),
    {
        let ghost m0 = *old(map);
        let ghost width = old(map).width as int;
        map.populate_blocked();
        map.clear_content_index();
        let n = world.slots.len();
        let mut i: usize = 0;
        while i < n
            invariant
                world.wf(),
                positions_in_bounds(*world, m0),
                n == world.n(),
                map.wf(),
                map.width == m0.width,
                map.height == m0.height,
                map.tiles@ == m0.tiles@,
                map.visible_tiles@ == m0.visible_tiles@,
                map.revealed_tiles@ == m0.revealed_tiles@,
                width == m0.width as int,
                i <= n,
                forall|c: int|
                    #![trigger map.blocked@[c]]
                    0 <= c < m0.size() ==> (map.blocked@[c] == (m0.tiles@[c] is Wall || exists|k: int|
                        0 <= k < i && blocker_at(*world, width, k, c))),
                forall|c: int|
                    #![trigger map.tile_content@[c]]
                    0 <= c < m0.size() ==> map.tile_content@[c]@ == content_at(
                        *world,
                        width,
                        c,
                        i as int,
                    ),
            decreases n - i,
        {
            let ghost mpre = *map;
            let slot = world.slots[i];
            if !matches!(slot.state, SlotState::Free) {
                if let Some(p) = world.positions.get(i) {
                    proof {
                        assert(world.positions@[i as int] == Some(*p));
                        assert(m0.spec_in_bounds(p.x as int, p.y as int));
                    }
                    let idx = map.xy_idx(p.x, p.y);
                    let is_blocker = match world.blockers.get(i) {
                        Some(_) => true,
                        None => false,
                    };
                    if is_blocker {
                        map.blocked[idx] = true;
                    }
                    map.tile_content[idx].push(Entity { index: i, gen: slot.gen });
                    proof {
                        assert(positioned_at(*world, width, i as int, idx as int));
                        assert forall|c: int| 0 <= c < m0.size() implies map.tile_content@[c]@
                            == content_at(*world, width, c, i + 1) by {
                            if c == idx {
                                assert(map.tile_content@[c]@ == mpre.tile_content@[c]@.push(
                                    world.handle(i as int),
                                ));
                            } else {
                                assert(!positioned_at(*world, width, i as int, c));
                                assert(map.tile_content@[c]@ == mpre.tile_content@[c]@);
                            }
                        }
                        assert forall|c: int| 0 <= c < m0.size() implies (map.blocked@[c] == (
                        m0.tiles@[c] is Wall || exists|k: int|
                            0 <= k < i + 1 && blocker_at(*world, width, k, c))) by {
                            if c == idx && is_blocker {
                                assert(blocker_at(*world, width, i as int, c));
                            } else {
                                assert(!blocker_at(*world, width, i as int, c));
                                assert(map.blocked@[c] == mpre.blocked@[c]);
                                if exists|k: int| 0 <= k < i + 1 && blocker_at(*world, width, k, c) {
                                    let k = choose|k: int|
                                        0 <= k < i + 1 && blocker_at(*world, width, k, c);
                                    assert(0 <= k < i && blocker_at(*world, width, k, c));
                                }
                            }
                        }
                    }
                } else {
                    proof {
                        assert forall|c: int| 0 <= c < m0.size() implies map.tile_content@[c]@
                            == content_at(*world, width, c, i + 1) by {
                            assert(!positioned_at(*world, width, i as int, c));
                        }
                        assert forall|c: int| #![trigger map.blocked@[c]]
                            0 <= c < m0.size() implies (map.blocked@[c] == (m0.tiles@[c] is Wall
                            || exists|k: int| 0 <= k < i + 1 && blocker_at(*world, width, k, c))) by {
                            assert(!blocker_at(*world, width, i as int, c));
                            if exists|k: int| 0 <= k < i + 1 && blocker_at(*world, width, k, c) {
                                let k = choose|k: int|
                                    0 <= k < i + 1 && blocker_at(*world, width, k, c);
                                assert(0 <= k < i && blocker_at(*world, width, k, c));
                            }
                        }
                    }
                }
            } else {
                proof {
                    assert forall|c: int| 0 <= c < m0.size() implies map.tile_content@[c]@
                        == content_at(*world, width, c, i + 1) by {
                        assert(!positioned_at(*world, width, i as int, c));
                    }
                    assert forall|c: int| #![trigger map.blocked@[c]]
                        0 <= c < m0.size() implies (map.blocked@[c] == (m0.tiles@[c] is Wall
                        || exists|k: int| 0 <= k < i + 1 && blocker_at(*world, width, k, c))) by {
                        assert(!blocker_at(*world, width, i as int, c));
                        if exists|k: int| 0 <= k < i + 1 && blocker_at(*world, width, k, c) {
                            let k = choose|k: int|
                                0 <= k < i + 1 && blocker_at(*world, width, k, c);
                            assert(0 <= k < i && blocker_at(*world, width, k, c));
                        }
                    }
                }
            }
            i = i + 1;
        }
    }
}

/// Everything the index rebuild guarantees, as one relation between the
/// before and after maps (the pass's contract, verbatim).
pub open spec fn index_rel(m0: GameMap, m1: GameMap, w: World) -> bool {
    &&& (m1.wf())
    &&& (m1.width == m0.width)
    &&& (m1.height == m0.height)
    &&& (m1.tiles@ == m0.tiles@)
    &&& (m1.visible_tiles@ == m0.visible_tiles@)
    &&& (m1.revealed_tiles@ == m0.revealed_tiles@)
    &&& (forall|c: int|
                #![trigger m1.blocked@[c]]
                0 <= c < m0.size() ==> (m1.blocked@[c] == (m0.tiles@[c] is Wall
                    || exists|i: int|
                    0 <= i < w.n() && blocker_at(w, m0.width as int, i, c))))
    &&& (forall|c: int|
                #![trigger m1.tile_content@[c]]
                0 <= c < m0.size() ==> m1.tile_content@[c]@ == content_at(
                    w,
                    m0.width as int,
                    c,
                    w.n(),
                ))
}

} // verus!
