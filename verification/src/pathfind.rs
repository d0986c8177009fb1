//! Shortest-path search over the grid: breadth-first, cost one per
//! orthogonal or diagonal step, blocked cells impassable. The contract
//! guarantees any returned path is valid: it starts at the start cell, ends
//! at the goal, moves one king-step at a time, and never crosses a blocked
//! cell after leaving the start.

use vstd::prelude::*;

use crate::components::Point;
use crate::map::GameMap;

verus! {

/// One king-move: the cells differ, by at most one in each coordinate.
pub open spec fn point_adjacent(a: Point, b: Point) -> bool {
    &&& !(a.x == b.x && a.y == b.y)
    &&& -1 <= b.x - a.x <= 1
    &&& -1 <= b.y - a.y <= 1
}

/// A valid walk for this map: begins at `start`, ends at `goal`, each step a
/// king-move, and every cell after the first unblocked and on the grid.
pub open spec fn valid_path(map: GameMap, path: Seq<Point>, start: Point, goal: Point) -> bool {
    &&& path.len() >= 1
    &&& path[0] == start
    &&& path.last() == goal
    &&& forall|k: int| #![trigger path[k]] 0 <= k < path.len() - 1 ==> point_adjacent(path[k], path[k + 1])
    &&& forall|k: int|
        #![trigger path[k]]
        1 <= k < path.len() ==> map.spec_in_bounds(path[k].x as int, path[k].y as int)
            && !map.blocked@[map.spec_idx(path[k].x as int, path[k].y as int)]
}

/// The linear cell index of a point, kept opaque so that quantified search
/// invariants stay free of multiplication terms.
#[verifier::opaque]
pub open spec fn cell_of(map: GameMap, pt: Point) -> int {
    map.spec_idx(pt.x as int, pt.y as int)
}

/// Whether a point lies on the grid, kept opaque for the same reason.
#[verifier::opaque]
pub open spec fn on_grid(map: GameMap, pt: Point) -> bool {
    map.spec_in_bounds(pt.x as int, pt.y as int)
}

/// How many cells are marked in a visited bitmap.
pub open spec fn count_true(s: Seq<bool>) -> int
    decreases s.len(),
{
    if s.len() == 0 {
        0
    } else {
        count_true(s.drop_last()) + (if s.last() {
            1int
        } else {
            0int
        })
    }
}

proof fn lemma_count_true_bound(s: Seq<bool>)
    ensures
        0 <= count_true(s) <= s.len(),
    decreases s.len(),
{
    if s.len() > 0 {
        lemma_count_true_bound(s.drop_last());
    }
}

proof fn lemma_count_true_update(s: Seq<bool>, i: int)
    requires
        0 <= i < s.len(),
        !s[i],
    ensures
        count_true(s.update(i, true)) == count_true(s) + 1,
    decreases s.len(),
{
    let t = s.update(i, true);
    if i == s.len() - 1 {
        assert(t.drop_last() =~= s.drop_last());
    } else {
        assert(t.drop_last() =~= s.drop_last().update(i, true));
        lemma_count_true_update(s.drop_last(), i);
    }
}

/// An all-false visited bitmap holds no marks.
proof fn lemma_count_true_zero(s: Seq<bool>)
    requires
        forall|i: int| 0 <= i < s.len() ==> !s[i],
    ensures
        count_true(s) == 0,
    decreases s.len(),
{
    if s.len() > 0 {
        lemma_count_true_zero(s.drop_last());
    }
}

fn fill_bool(n: usize) -> (v: Vec<bool>)
    ensures
        v@.len() == n,
        forall|i: int| 0 <= i < n ==> !v@[i],
{
    let mut v: Vec<bool> = Vec::new();
    let mut i: usize = 0;
    while i < n
        invariant
            i <= n,
            v@.len() == i,
            forall|j: int| 0 <= j < i ==> !v@[j],
        decreases n - i,
    {
        v.push(false);
        i = i + 1;
    }
    v
}

fn fill_point(n: usize) -> (v: Vec<Point>)
    ensures
        v@.len() == n,
{
    let mut v: Vec<Point> = Vec::new();
    let mut i: usize = 0;
    while i < n
        invariant
            i <= n,
            v@.len() == i,
        decreases n - i,
    {
        v.push(Point { x: 0, y: 0 });
        i = i + 1;
    }
    v
}

fn fill_u64(n: usize) -> (v: Vec<u64>)
    ensures
        v@.len() == n,
{
    let mut v: Vec<u64> = Vec::new();
    let mut i: usize = 0;
    while i < n
        invariant
            i <= n,
            v@.len() == i,
        decreases n - i,
    {
        v.push(0);
        i = i + 1;
    }
    v
}

/// The search front and bookkeeping of one breadth-first search.
struct Bfs {
    visited: Vec<bool>,
    parent: Vec<Point>,
    selfpt: Vec<Point>,
    dist: Vec<u64>,
    queue: Vec<usize>,
}

impl Bfs {
    /// The search bookkeeping is sound for this map and start point: queued
    /// cells are visited; every visited cell knows its own coordinates; and
    /// every visited cell but the start is unblocked and reached by one
    /// king-move from a visited parent one step closer to the start.
    spec fn inv(self, map: GameMap, start: Point, start_idx: int) -> bool {
        &&& map.wf()
        &&& on_grid(map, start)
        &&& start_idx == cell_of(map, start)
        &&& 0 <= start_idx < map.size()
        &&& self.visited@.len() == map.size()
        &&& self.parent@.len() == map.size()
        &&& self.selfpt@.len() == map.size()
        &&& self.dist@.len() == map.size()
        &&& forall|k: int|
            0 <= k < self.queue@.len() ==> 0 <= #[trigger] self.queue@[k] < map.size()
                && self.visited@[self.queue@[k] as int]
        &&& self.visited@[start_idx]
        &&& self.selfpt@[start_idx] == start
        &&& self.dist@[start_idx] == 0
        &&& forall|c: int|
            #![trigger self.visited@[c]]
            0 <= c < map.size() && self.visited@[c] ==> {
                &&& on_grid(map, self.selfpt@[c])
                &&& cell_of(map, self.selfpt@[c]) == c
                &&& self.dist@[c] < count_true(self.visited@)
                &&& (c != start_idx ==> {
                    let p = cell_of(map, self.parent@[c]);
                    &&& !map.blocked@[c]
                    &&& on_grid(map, self.parent@[c])
                    &&& 0 <= p < map.size()
                    &&& self.visited@[p]
                    &&& self.dist@[p] + 1 == self.dist@[c]
                    &&& point_adjacent(self.parent@[c], self.selfpt@[c])
                })
            }
    }

    /// Visits one neighbour cell of `cur`, if it is on the grid, unblocked
    /// and not yet visited: marks it, records its parent and distance, and
    /// queues it.
    #[verifier::rlimit(100)]
    #[verifier::spinoff_prover]
    fn enqueue_neighbor(&mut self, map: &GameMap, cur: usize, nx: i64, ny: i64, Ghost(start): Ghost<
        Point,
    >, Ghost(start_idx): Ghost<int>)
        requires
            old(self).inv(*map, start, start_idx),
            0 <= cur < map.size(),
            old(self).visited@[cur as int],
            -1 <= nx as int - old(self).selfpt@[cur as int].x as int <= 1,
            -1 <= ny as int - old(self).selfpt@[cur as int].y as int <= 1,
            !(nx as int == old(self).selfpt@[cur as int].x as int && ny as int == old(
                self,
            ).selfpt@[cur as int].y as int),
        ensures
            final(self).inv(*map, start, start_idx),
            final(self).queue@.len() + 2 * (map.size() - count_true(final(self).visited@)) <= old(
                self,
            ).queue@.len() + 2 * (map.size() - count_true(old(self).visited@)),
            old(self).queue@.len() <= final(self).queue@.len(),
            forall|k: int|
                0 <= k < old(self).queue@.len() ==> final(self).queue@[k] == old(self).queue@[k],
            final(self).visited@[cur as int],
            final(self).selfpt@[cur as int] == old(self).selfpt@[cur as int],
            final(self).dist@[cur as int] == old(self).dist@[cur as int],
    {
        proof {
            lemma_count_true_bound(self.visited@);
        }
        if nx < 0 || ny < 0 || nx >= map.width as i64 || ny >= map.height as i64 {
            return ;
        }
        let nxi = nx as i32;
        let nyi = ny as i32;
        let nidx = map.xy_idx(nxi, nyi);
        if self.visited[nidx] {
            return ;
        }
        if map.blocked[nidx] {
            return ;
        }
        let cur_pt = self.selfpt[cur];
        let d = self.dist[cur];
        proof {
            lemma_count_true_update(self.visited@, nidx as int);
            reveal(cell_of);
            reveal(on_grid);
            assert(on_grid(*map, Point { x: nxi, y: nyi }));
            assert(cell_of(*map, Point { x: nxi, y: nyi }) == nidx as int);
        }
        self.visited[nidx] = true;
        self.parent[nidx] = cur_pt;
        self.selfpt[nidx] = Point { x: nxi, y: nyi };
        self.dist[nidx] = d + 1;
        self.queue.push(nidx);
        proof {
            assert(count_true(self.visited@) == count_true(old(self).visited@) + 1);
            assert(nidx != start_idx) by {
                assert(old(self).visited@[start_idx]);
            }
            assert(point_adjacent(cur_pt, Point { x: nxi, y: nyi }));
            assert forall|c: int|
                0 <= c < map.size() && self.visited@[c] implies on_grid(*map, self.selfpt@[c])
                && cell_of(*map, self.selfpt@[c]) == c by {
                if c != nidx {
                    assert(old(self).visited@[c]);
                }
            }
            assert forall|c: int|
                0 <= c < map.size() && self.visited@[c] implies self.dist@[c] < count_true(
                self.visited@,
            ) by {
                if c != nidx {
                    assert(old(self).visited@[c]);
                }
            }
            assert forall|c: int|
                0 <= c < map.size() && self.visited@[c] && c != start_idx implies {
                let p = cell_of(*map, self.parent@[c]);
                &&& !map.blocked@[c]
                &&& on_grid(*map, self.parent@[c])
                &&& 0 <= p < map.size()
                &&& self.visited@[p]
                &&& self.dist@[p] + 1 == self.dist@[c]
                &&& point_adjacent(self.parent@[c], self.selfpt@[c])
            } by {
                if c != nidx {
                    assert(old(self).visited@[c]);
                }
            }
        }
    }
}

/// Walks the recorded parents back from the goal and reverses the result
/// into a forward path.
fn reconstruct(bfs: &Bfs, map: &GameMap, start: Point, goal_idx: usize, Ghost(start_idx): Ghost<
    int,
>) -> (path: Vec<Point>)
    requires
        bfs.inv(*map, start, start_idx),
        0 <= goal_idx < map.size(),
        bfs.visited@[goal_idx as int],
    ensures
        valid_path(*map, path@, start, bfs.selfpt@[goal_idx as int]),
{
    let ghost goal_pt = bfs.selfpt@[goal_idx as int];
    let mut rev: Vec<Point> = Vec::new();
    let mut cur: usize = goal_idx;
    rev.push(bfs.selfpt[goal_idx]);
    proof {
        reveal(cell_of);
        reveal(on_grid);
    }
    let start_cell = map.xy_idx(start.x, start.y);
    proof {
        assert(start_cell == start_idx);
        assert(bfs.visited@[goal_idx as int]);
        if goal_idx as int != start_idx {
            assert(!map.blocked@[map.spec_idx(goal_pt.x as int, goal_pt.y as int)]);
        }
    }
    while cur != start_cell
        invariant
            bfs.inv(*map, start, start_idx),
            start_idx == start_cell,
            0 <= cur < map.size(),
            bfs.visited@[cur as int],
            rev@.len() >= 1,
            rev@[0] == goal_pt,
            rev@.last() == bfs.selfpt@[cur as int],
            forall|k: int| #![trigger rev@[k]] 0 <= k < rev@.len() - 1 ==> point_adjacent(rev@[k + 1], rev@[k]),
            forall|k: int|
                0 <= k < rev@.len() - 1 ==> map.spec_in_bounds(rev@[k].x as int, rev@[k].y as int)
                    && !map.blocked@[map.spec_idx(rev@[k].x as int, rev@[k].y as int)],
            cur != start_idx ==> map.spec_in_bounds(rev@.last().x as int, rev@.last().y as int)
                && !map.blocked@[map.spec_idx(rev@.last().x as int, rev@.last().y as int)],
        decreases bfs.dist@[cur as int],
    {
        proof {
            reveal(cell_of);
            reveal(on_grid);
            assert(bfs.visited@[cur as int]);
        }
        let pp = bfs.parent[cur];
        let pidx = map.xy_idx(pp.x, pp.y);
        rev.push(pp);
        proof {
            reveal(cell_of);
            reveal(on_grid);
            assert(pidx as int == cell_of(*map, pp));
            assert(bfs.visited@[pidx as int]);
            assert(bfs.dist@[pidx as int] < bfs.dist@[cur as int]);
            let sp = bfs.selfpt@[pidx as int];
            assert(cell_of(*map, sp) == pidx as int);
            GameMap::lemma_idx_injective(
                *map,
                sp.x as int,
                sp.y as int,
                pp.x as int,
                pp.y as int,
            );
            assert(bfs.selfpt@[pidx as int] == pp);
            if pidx as int != start_idx {
                assert(!map.blocked@[map.spec_idx(pp.x as int, pp.y as int)]);
            }
        }
        cur = pidx;
    }
    // reverse into a forward path
    let m = rev.len();
    let mut path: Vec<Point> = Vec::new();
    let mut k: usize = 0;
    while k < m
        invariant
            m == rev@.len(),
            k <= m,
            path@.len() == k,
            forall|t: int| 0 <= t < k ==> path@[t] == rev@[m - 1 - t],
        decreases m - k,
    {
        path.push(rev[m - 1 - k]);
        k = k + 1;
    }
    proof {
        assert(path@[0] == rev@[m - 1]);
        assert(rev@.last() == bfs.selfpt@[start_idx]);
        assert(bfs.selfpt@[start_idx] == start);
        assert(path@.last() == rev@[0]);
        assert forall|t: int| #![trigger path@[t]] 0 <= t < path@.len() - 1 implies point_adjacent(
            path@[t],
            path@[t + 1],
        ) by {
            assert(path@[t] == rev@[m - 1 - t]);
            assert(path@[t + 1] == rev@[m - 1 - (t + 1)]);
            assert(point_adjacent(rev@[(m - 2 - t) + 1], rev@[m - 2 - t]));
        }
        assert forall|t: int|
            1 <= t < path@.len() implies map.spec_in_bounds(
            path@[t].x as int,
            path@[t].y as int,
        ) && !map.blocked@[map.spec_idx(path@[t].x as int, path@[t].y as int)] by {
            assert(path@[t] == rev@[m - 1 - t]);
            assert(0 <= m - 1 - t < rev@.len() - 1);
        }
    }
    path
}

/// Breadth-first search from `start` to `goal`. A returned path is valid for
/// this map (see `valid_path`); `None` means the search exhausted every cell
/// it could reach without finding the goal.
#[verifier::rlimit(100)]
#[verifier::spinoff_prover]
pub fn find_path(map: &GameMap, start: Point, goal: Point) -> (r: Option<Vec<Point>>)
    requires
        map.wf(),
        map.spec_in_bounds(start.x as int, start.y as int),
        map.spec_in_bounds(goal.x as int, goal.y as int),
    ensures
        match r {
            Some(path) => valid_path(*map, path@, start, goal),
            None => true,
        },
{
    let size = map.blocked.len();
    let start_idx = map.xy_idx(start.x, start.y);
    let goal_idx = map.xy_idx(goal.x, goal.y);
    let ghost start_idx_g = start_idx as int;
    proof {
        reveal(cell_of);
        reveal(on_grid);
        assert(cell_of(*map, start) == start_idx as int);
        assert(on_grid(*map, start));
    }
    let mut bfs = Bfs {
        visited: fill_bool(size),
        parent: fill_point(size),
        selfpt: fill_point(size),
        dist: fill_u64(size),
        queue: Vec::new(),
    };
    let ghost blank = bfs.visited@;
    bfs.visited[start_idx] = true;
    bfs.selfpt[start_idx] = start;
    bfs.dist[start_idx] = 0;
    bfs.queue.push(start_idx);
    proof {
        lemma_count_true_zero(blank);
        lemma_count_true_update(blank, start_idx as int);
        assert(count_true(bfs.visited@) == 1);
        assert(bfs.inv(*map, start, start_idx_g));
    }
    let mut head: usize = 0;
    while head < bfs.queue.len()
        invariant
            bfs.inv(*map, start, start_idx_g),
            goal_idx == map.spec_idx(goal.x as int, goal.y as int),
            map.spec_in_bounds(goal.x as int, goal.y as int),
            0 <= goal_idx < map.size(),
            head <= bfs.queue@.len(),
        decreases (bfs.queue@.len() - head) + 2 * (map.size() - count_true(bfs.visited@)),
    {
        let cur = bfs.queue[head];
        head = head + 1;
        if cur == goal_idx {
            proof {
                assert(bfs.visited@[goal_idx as int]);
                assert(bfs.selfpt@[goal_idx as int] == goal) by {
                    reveal(cell_of);
                    reveal(on_grid);
                    assert(bfs.visited@[goal_idx as int]);
                    let sp = bfs.selfpt@[goal_idx as int];
                    assert(map.spec_idx(sp.x as int, sp.y as int) == goal_idx as int);
                    GameMap::lemma_idx_injective(
                        *map,
                        sp.x as int,
                        sp.y as int,
                        goal.x as int,
                        goal.y as int,
                    );
                }
            }
            let path = reconstruct(&bfs, map, start, cur, Ghost(start_idx_g));
            return Some(path);
        }
        let cpt = bfs.selfpt[cur];
        let cx = cpt.x as i64;
        let cy = cpt.y as i64;
        bfs.enqueue_neighbor(map, cur, cx - 1, cy - 1, Ghost(start), Ghost(start_idx_g));
        bfs.enqueue_neighbor(map, cur, cx, cy - 1, Ghost(start), Ghost(start_idx_g));
        bfs.enqueue_neighbor(map, cur, cx + 1, cy - 1, Ghost(start), Ghost(start_idx_g));
        bfs.enqueue_neighbor(map, cur, cx - 1, cy, Ghost(start), Ghost(start_idx_g));
        bfs.enqueue_neighbor(map, cur, cx + 1, cy, Ghost(start), Ghost(start_idx_g));
        bfs.enqueue_neighbor(map, cur, cx - 1, cy + 1, Ghost(start), Ghost(start_idx_g));
        bfs.enqueue_neighbor(map, cur, cx, cy + 1, Ghost(start), Ghost(start_idx_g));
        bfs.enqueue_neighbor(map, cur, cx + 1, cy + 1, Ghost(start), Ghost(start_idx_g));
        proof {
            lemma_count_true_bound(bfs.visited@);
        }
    }
    None
}

/// A marked cell makes the count positive.
proof fn lemma_count_true_pos(s: Seq<bool>, i: int)
    requires
        0 <= i < s.len(),
        s[i],
    ensures
        count_true(s) >= 1,
    decreases s.len(),
{
    if i == s.len() - 1 {
        lemma_count_true_bound(s.drop_last());
    } else {
        lemma_count_true_pos(s.drop_last(), i);
    }
}

} // verus!
