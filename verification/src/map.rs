//! The map singleton: a fixed-size tile grid with a parallel blocked bitmap,
//! a per-cell occupant list (the spatial index), and visibility bitmaps.
//! Created once at world start (or restored from a save) and mutated in
//! place; the index-rebuild pass refreshes the blocked and occupant data
//! every turn.

use vstd::prelude::*;

use crate::entity::Entity;

verus! {

#[derive(Clone, Copy, PartialEq, Eq, Structural, Debug)]
pub enum TileType {
    Wall,
    Floor,
}

pub struct GameMap {
    pub width: i32,
    pub height: i32,
    pub tiles: Vec<TileType>,
    pub blocked: Vec<bool>,
    pub tile_content: Vec<Vec<Entity>>,
    pub visible_tiles: Vec<bool>,
    pub revealed_tiles: Vec<bool>,
}

impl GameMap {
    /// Number of cells.
    pub open spec fn size(self) -> int {
        self.width * self.height
    }

    /// The grid is non-empty and every parallel vector covers each cell.
    pub open spec fn wf(self) -> bool {
        &&& 0 < self.width
        &&& 0 < self.height
        &&& self.size() <= usize::MAX
        &&& self.tiles@.len() == self.size()
        &&& self.blocked@.len() == self.size()
        &&& self.tile_content@.len() == self.size()
        &&& self.visible_tiles@.len() == self.size()
        &&& self.revealed_tiles@.len() == self.size()
    }

    pub open spec fn spec_in_bounds(self, x: int, y: int) -> bool {
        0 <= x < self.width && 0 <= y < self.height
    }

    /// The coordinate-to-linear-index mapping every other component uses.
    pub open spec fn spec_idx(self, x: int, y: int) -> int {
        y * self.width + x
    }

    pub proof fn lemma_idx_in_range(self, x: int, y: int)
        requires
            self.wf(),
            self.spec_in_bounds(x, y),
        ensures
            0 <= self.spec_idx(x, y) < self.size(),
            0 <= y * self.width,
            self.size() < 0x4000000000000000,
    {
        assert(y * self.width + x < self.width * self.height) by (nonlinear_arith)
            requires
                0 <= x < self.width,
                0 <= y < self.height,
        ;
        assert(0 <= y * self.width) by (nonlinear_arith)
            requires
                0 <= y,
                0 < self.width,
        ;
        self.lemma_size_fits();
    }

    proof fn lemma_size_fits(self)
        requires
            0 < self.width,
            0 < self.height,
        ensures
            0 < self.size() < 0x4000000000000000,
    {
        assert(0 < self.width * self.height < 0x4000000000000000) by (nonlinear_arith)
            requires
                0 < self.width < 0x80000000,
                0 < self.height < 0x80000000,
        ;
    }

    /// The coordinate-to-index mapping is injective on the grid.
    pub proof fn lemma_idx_injective(m: GameMap, x1: int, y1: int, x2: int, y2: int)
        requires
            m.wf(),
            m.spec_in_bounds(x1, y1),
            m.spec_in_bounds(x2, y2),
            m.spec_idx(x1, y1) == m.spec_idx(x2, y2),
        ensures
            x1 == x2,
            y1 == y2,
    {
        assert(y1 == y2 && x1 == x2) by (nonlinear_arith)
            requires
                0 <= x1 < m.width,
                0 <= x2 < m.width,
                0 <= y1,
                0 <= y2,
                y1 * m.width + x1 == y2 * m.width + x2,
        ;
    }

    pub fn in_bounds(&self, x: i32, y: i32) -> (r: bool)
        ensures
            r == self.spec_in_bounds(x as int, y as int),
    {
        0 <= x && x < self.width && 0 <= y && y < self.height
    }

    /// Linear cell index; callers must bounds-check first (out-of-bounds is a
    /// caller error, not absorbed here).
    pub fn xy_idx(&self, x: i32, y: i32) -> (idx: usize)
        requires
            self.wf(),
            self.spec_in_bounds(x as int, y as int),
        ensures
            idx == self.spec_idx(x as int, y as int),
            idx < self.size(),
    {
        proof {
            self.lemma_idx_in_range(x as int, y as int);
        }
        (y as i64 * self.width as i64 + x as i64) as usize
    }

    /// Resets the blocked bitmap to the static terrain blocking: exactly the
    /// wall cells block.
    pub fn populate_blocked(&mut self)
        requires
            old(self).wf(),
        ensures
            final(self).wf(),
            *final(self) == (GameMap { blocked: final(self).blocked, ..*old(self) }),
            forall|c: int|
                0 <= c < old(self).size() ==> final(self).blocked@[c] == (old(self).tiles@[c]
                    is Wall),
    {
        let n = self.tiles.len();
        let mut i: usize = 0;
        while i < n
            invariant
                self.wf(),
                n == self.tiles@.len(),
                i <= n,
                *self == (GameMap { blocked: self.blocked, ..*old(self) }),
                self.blocked@.len() == n,
                forall|c: int| 0 <= c < i ==> self.blocked@[c] == (self.tiles@[c] is Wall),
            decreases n - i,
        {
            let is_wall = match self.tiles[i] {
                TileType::Wall => true,
                TileType::Floor => false,
            };
            self.blocked[i] = is_wall;
            i = i + 1;
        }
    }

    /// Resets every cell's occupant list.
    pub fn clear_content_index(&mut self)
        requires
            old(self).wf(),
        ensures
            final(self).wf(),
            *final(self) == (GameMap { tile_content: final(self).tile_content, ..*old(self) }),
            forall|c: int|
                0 <= c < old(self).size() ==> final(self).tile_content@[c]@
                    == Seq::<Entity>::empty(),
    {
        let n = self.tile_content.len();
        let mut i: usize = 0;
        while i < n
            invariant
                self.wf(),
                n == self.tile_content@.len(),
                i <= n,
                *self == (GameMap { tile_content: self.tile_content, ..*old(self) }),
                forall|c: int| 0 <= c < i ==> self.tile_content@[c]@ == Seq::<Entity>::empty(),
            decreases n - i,
        {
            self.tile_content[i].clear();
            i = i + 1;
        }
    }

    /// Same grid, cell for cell: what a deep copy preserves.
    pub open spec fn congruent(a: GameMap, b: GameMap) -> bool {
        &&& a.width == b.width
        &&& a.height == b.height
        &&& a.tiles@ == b.tiles@
        &&& a.blocked@ == b.blocked@
        &&& a.visible_tiles@ == b.visible_tiles@
        &&& a.revealed_tiles@ == b.revealed_tiles@
        &&& a.tile_content@.len() == b.tile_content@.len()
        &&& forall|c: int|
            0 <= c < a.tile_content@.len() ==> a.tile_content@[c]@ == b.tile_content@[c]@
    }

    /// A field-preserving deep copy, for embedding the map in a save.
    pub fn duplicate(&self) -> (m: GameMap)
        ensures
            GameMap::congruent(m, *self),
    {
        GameMap {
            width: self.width,
            height: self.height,
            tiles: crate::util::copy_vec(&self.tiles),
            blocked: crate::util::copy_vec(&self.blocked),
            tile_content: self.copy_content(),
            visible_tiles: crate::util::copy_vec(&self.visible_tiles),
            revealed_tiles: crate::util::copy_vec(&self.revealed_tiles),
        }
    }

    fn copy_content(&self) -> (r: Vec<Vec<Entity>>)
        ensures
            r@.len() == self.tile_content@.len(),
            forall|c: int| 0 <= c < r@.len() ==> r@[c]@ == self.tile_content@[c]@,
    {
        let mut r: Vec<Vec<Entity>> = Vec::new();
        let n = self.tile_content.len();
        let mut i: usize = 0;
        while i < n
            invariant
                n == self.tile_content@.len(),
                i <= n,
                r@.len() == i,
                forall|c: int| 0 <= c < i ==> r@[c]@ == self.tile_content@[c]@,
            decreases n - i,
        {
            r.push(crate::util::copy_vec(&self.tile_content[i]));
            i = i + 1;
        }
        r
    }

    /// A fresh all-floor map ringed by walls, nothing visible or revealed
    /// yet. Richer generation is the front end's business; it can overwrite
    /// `tiles` cell by cell afterwards.
    pub fn new(width: i32, height: i32) -> (m: GameMap)
        requires
            0 < width,
            0 < height,
            width * height <= usize::MAX,
        ensures
            m.wf(),
            m.width == width,
            m.height == height,
            forall|c: int| 0 <= c < m.size() ==> !m.visible_tiles@[c] && !m.revealed_tiles@[c],
            forall|c: int| 0 <= c < m.size() ==> m.tile_content@[c]@ == Seq::<Entity>::empty(),
    {
        proof {
            assert(0 < width * height < 0x4000000000000000) by (nonlinear_arith)
                requires
                    0 < width < 0x80000000,
                    0 < height < 0x80000000,
            ;
        }
        let size = (width as i64 * height as i64) as usize;
        let mut tiles: Vec<TileType> = Vec::new();
        let mut blocked: Vec<bool> = Vec::new();
        let mut tile_content: Vec<Vec<Entity>> = Vec::new();
        let mut visible_tiles: Vec<bool> = Vec::new();
        let mut revealed_tiles: Vec<bool> = Vec::new();
        let mut i: usize = 0;
        while i < size
            invariant
                i <= size,
                tiles@.len() == i,
                blocked@.len() == i,
                tile_content@.len() == i,
                visible_tiles@.len() == i,
                revealed_tiles@.len() == i,
                forall|c: int| 0 <= c < i ==> !visible_tiles@[c] && !revealed_tiles@[c],
                forall|c: int| 0 <= c < i ==> tile_content@[c]@ == Seq::<Entity>::empty(),
            decreases size - i,
        {
            tiles.push(TileType::Floor);
            blocked.push(false);
            tile_content.push(Vec::new());
            visible_tiles.push(false);
            revealed_tiles.push(false);
            i = i + 1;
        }
        let mut m = GameMap { width, height, tiles, blocked, tile_content, visible_tiles, revealed_tiles };
        let mut x: i32 = 0;
        while x < width
            invariant
                0 <= x <= width,
                m.wf(),
                m.width == width,
                m.height == height,
                forall|c: int| 0 <= c < m.size() ==> !m.visible_tiles@[c] && !m.revealed_tiles@[c],
                forall|c: int| 0 <= c < m.size() ==> m.tile_content@[c]@ == Seq::<Entity>::empty(),
            decreases width - x,
        {
            let top = m.xy_idx(x, 0);
            m.tiles[top] = TileType::Wall;
            let bottom = m.xy_idx(x, height - 1);
            m.tiles[bottom] = TileType::Wall;
            x = x + 1;
        }
        let mut y: i32 = 0;
        while y < height
            invariant
                0 <= y <= height,
                m.wf(),
                m.width == width,
                m.height == height,
                forall|c: int| 0 <= c < m.size() ==> !m.visible_tiles@[c] && !m.revealed_tiles@[c],
                forall|c: int| 0 <= c < m.size() ==> m.tile_content@[c]@ == Seq::<Entity>::empty(),
            decreases height - y,
        {
            let left = m.xy_idx(0, y);
            m.tiles[left] = TileType::Wall;
            let right = m.xy_idx(width - 1, y);
            m.tiles[right] = TileType::Wall;
            y = y + 1;
        }
        m
    }
}

} // verus!
