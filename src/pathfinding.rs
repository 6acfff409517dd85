//! Steps between tiles and the A* search over them. Costs are integers: a
//! cardinal step costs 100 and a diagonal one 145. The search is written
//! here on the verified map rather than through bracket's map traits.

use vstd::prelude::*;
use crate::map::GameMap;

verus! {

pub const CARDINAL_COST: u64 = 100;
/// Cost of a diagonal step, in the same unit: 1.45 times a cardinal one.
pub const DIAGONAL_COST: u64 = 145;

/// `(x, y)` can be entered: inside the walkable frame of the grid and not blocked.
pub open spec fn exit_ok(m: GameMap, x: int, y: int) -> bool {
    &&& 1 <= x <= m.width - 1
    &&& 1 <= y <= m.height - 1
    &&& !m.blocked@[m.idx(x, y)]
}

/// One step from `(fx, fy)` to a neighbour `(tx, ty)` that can be entered; a
/// diagonal step also needs both tiles beside it to be enterable, so that no
/// corner is cut.
pub open spec fn step_ok(m: GameMap, fx: int, fy: int, tx: int, ty: int) -> bool {
    let dx = tx - fx;
    let dy = ty - fy;
    &&& -1 <= dx <= 1
    &&& -1 <= dy <= 1
    &&& (dx != 0 || dy != 0)
    &&& exit_ok(m, tx, ty)
    &&& (dx != 0 && dy != 0 ==> exit_ok(m, fx + dx, fy) && exit_ok(m, fx, fy + dy))
}

/// A step between the tiles of index `a` and `b`.
pub open spec fn tile_step_ok(m: GameMap, a: int, b: int) -> bool {
    step_ok(m, m.x_of(a), m.y_of(a), m.x_of(b), m.y_of(b))
}

pub open spec fn step_cost(fx: int, fy: int, tx: int, ty: int) -> int {
    if tx != fx && ty != fy {
        DIAGONAL_COST as int
    } else {
        CARDINAL_COST as int
    }
}

/// `path` walks from `start` to `end` by valid steps over tiles of the map.
pub open spec fn path_ok(m: GameMap, path: Seq<usize>, start: int, end: int) -> bool {
    &&& path.len() >= 1
    &&& path[0] == start
    &&& path.last() == end
    &&& forall|k: int| 0 <= k < path.len() ==> #[trigger] path[k] < m.count()
    &&& forall|k: int| 0 <= k < path.len() - 1 ==> tile_step_ok(m, #[trigger] path[k] as int, path[k + 1] as int)
}

/// `s` with the step from `(x, y)` by `(dx, dy)` appended, when it is valid.
pub open spec fn push_if_step(m: GameMap, x: int, y: int, dx: int, dy: int, s: Seq<(usize, u64)>) -> Seq<
    (usize, u64),
> {
    if step_ok(m, x, y, x + dx, y + dy) {
        s.push((m.idx(x + dx, y + dy) as usize, step_cost(x, y, x + dx, y + dy) as u64))
    } else {
        s
    }
}

/// The exits of tile `i` in their fixed order: west, east, north, south,
/// then north-west, north-east, south-west, south-east.
pub open spec fn exit_list(m: GameMap, i: int) -> Seq<(usize, u64)> {
    let x = m.x_of(i);
    let y = m.y_of(i);
    push_if_step(m, x, y, 1, 1,
    push_if_step(m, x, y, -1, 1,
    push_if_step(m, x, y, 1, -1,
    push_if_step(m, x, y, -1, -1,
    push_if_step(m, x, y, 0, 1,
    push_if_step(m, x, y, 0, -1,
    push_if_step(m, x, y, 1, 0,
    push_if_step(m, x, y, -1, 0, seq![]))))))))
}

/// Entry `e` of the exits of tile `from`: a valid step with its cost.
pub open spec fn exit_entry_ok(m: GameMap, from: int, e: (usize, u64)) -> bool {
    &&& e.0 < m.count()
    &&& tile_step_ok(m, from, e.0 as int)
    &&& e.1 == step_cost(m.x_of(from), m.y_of(from), m.x_of(e.0 as int), m.y_of(e.0 as int))
}

pub open spec fn exits_sound(m: GameMap, from: int, s: Seq<(usize, u64)>) -> bool {
    forall|k: int| 0 <= k < s.len() ==> exit_entry_ok(m, from, #[trigger] s[k])
}

/// Some entry of `s` leads to tile `j`.
pub open spec fn has_exit(s: Seq<(usize, u64)>, j: int) -> bool {
    exists|k: int| 0 <= k < s.len() && (#[trigger] s[k]).0 == j
}

impl GameMap {
    pub fn is_exit_valid(&self, x: i32, y: i32) -> (r: bool)
        requires
            self.wf(),
        ensures
            r == exit_ok(*self, x as int, y as int),
    {
        if x < 1 || x > self.width - 1 || y < 1 || y > self.height - 1 {
            return false;
        }
        let idx = self.xy_idx(x, y);
        !self.blocked[idx]
    }

    /// Appends the step from `(x, y)` by `(dx, dy)` when it is valid.
    fn push_exit(&self, x: i32, y: i32, dx: i32, dy: i32, exits: &mut Vec<(usize, u64)>)
        requires
            self.wf(),
            self.in_bounds(x as int, y as int),
            -1 <= dx <= 1,
            -1 <= dy <= 1,
            dx != 0 || dy != 0,
            exits_sound(*self, self.idx(x as int, y as int), old(exits)@),
        ensures
            exits_sound(*self, self.idx(x as int, y as int), final(exits)@),
            forall|j: int| #[trigger] has_exit(old(exits)@, j) ==> has_exit(final(exits)@, j),
            step_ok(*self, x as int, y as int, x + dx, y + dy) ==> has_exit(
                final(exits)@,
                self.idx(x + dx, y + dy),
            ),
            final(exits)@ == push_if_step(*self, x as int, y as int, dx as int, dy as int, old(exits)@),
    {
        let diagonal = dx != 0 && dy != 0;
        let ok = if diagonal {
            self.is_exit_valid(x + dx, y + dy) && self.is_exit_valid(x + dx, y) && self.is_exit_valid(
                x,
                y + dy,
            )
        } else {
            self.is_exit_valid(x + dx, y + dy)
        };
        proof {
            self.lemma_idx(x as int, y as int);
        }
        if ok {
            let idx = self.xy_idx(x + dx, y + dy);
            let cost = if diagonal { DIAGONAL_COST } else { CARDINAL_COST };
            let ghost before = exits@;
            exits.push((idx, cost));
            proof {
                self.lemma_idx(x + dx, y + dy);
                assert(exits@[before.len() as int] == (idx, cost));
                assert forall|j: int| #[trigger] has_exit(before, j) implies has_exit(exits@, j) by {
                    let k = choose|k: int| 0 <= k < before.len() && (#[trigger] before[k]).0 == j;
                    assert(exits@[k] == before[k]);
                }
                assert forall|k: int| 0 <= k < exits@.len() implies exit_entry_ok(
                    *self,
                    self.idx(x as int, y as int),
                    #[trigger] exits@[k],
                ) by {
                    if k < before.len() {
                        assert(exits@[k] == before[k]);
                    }
                }
            }
        }
    }

    /// The tiles one step away from tile `idx`, each with the cost of the
    /// step: first west, east, north and south, then the four diagonals.
    pub fn get_available_exits(&self, idx: usize) -> (exits: Vec<(usize, u64)>)
        requires
            self.wf(),
            idx < self.count(),
        ensures
            exits_sound(*self, idx as int, exits@),
            forall|j: int|
                0 <= j < self.count() && #[trigger] tile_step_ok(*self, idx as int, j) ==> has_exit(exits@, j),
            exits@ == exit_list(*self, idx as int),
            exits@.len() <= 8,
    {
        proof {
            self.lemma_coords(idx as int);
        }
        let w = self.width as usize;
        let x = (idx % w) as i32;
        let y = (idx / w) as i32;
        let mut exits: Vec<(usize, u64)> = Vec::new();
        self.push_exit(x, y, -1, 0, &mut exits);
        self.push_exit(x, y, 1, 0, &mut exits);
        self.push_exit(x, y, 0, -1, &mut exits);
        self.push_exit(x, y, 0, 1, &mut exits);
        self.push_exit(x, y, -1, -1, &mut exits);
        self.push_exit(x, y, 1, -1, &mut exits);
        self.push_exit(x, y, -1, 1, &mut exits);
        self.push_exit(x, y, 1, 1, &mut exits);
        proof {
            assert forall|j: int|
                0 <= j < self.count() && #[trigger] tile_step_ok(*self, idx as int, j) implies has_exit(
                exits@,
                j,
            ) by {
                self.lemma_coords(j);
            }
        }
        exits
    }
}


pub const NO_PARENT: usize = usize::MAX;
pub const UNREACHED: u64 = u64::MAX;

/// Octile distance in step-cost units: the cost of the cheapest walk between
/// two tiles on an open grid. It never overestimates, so it guides the search.
pub open spec fn octile(dx: int, dy: int) -> int {
    let ax = if dx >= 0 { dx } else { -dx };
    let ay = if dy >= 0 { dy } else { -dy };
    if ax >= ay {
        CARDINAL_COST * ax + (DIAGONAL_COST - CARDINAL_COST) * ay
    } else {
        CARDINAL_COST * ay + (DIAGONAL_COST - CARDINAL_COST) * ax
    }
}

/// Cost of the step between the tiles of index `a` and `b`.
pub open spec fn tile_cost(m: GameMap, a: int, b: int) -> int {
    step_cost(m.x_of(a), m.y_of(a), m.x_of(b), m.y_of(b))
}

/// Total cost of the steps of a walk.
pub open spec fn path_cost(m: GameMap, p: Seq<usize>) -> int
    decreases p.len(),
{
    if p.len() <= 1 {
        0
    } else {
        tile_cost(m, p[0] as int, p[1] as int) + path_cost(m, p.subrange(1, p.len() as int))
    }
}

/// The search's estimate from tile `j` to tile `end`.
pub open spec fn estimate(m: GameMap, j: int, end: int) -> int {
    octile(m.x_of(end) - m.x_of(j), m.y_of(end) - m.y_of(j))
}

/// No walk from `start` to `c` costs less than `v`.
pub open spec fn no_cheaper(m: GameMap, start: int, c: int, v: int) -> bool {
    forall|p: Seq<usize>| #[trigger] path_ok(m, p, start, c) ==> v <= path_cost(m, p)
}

/// The estimate never drops by more than the cost of one step.
proof fn lemma_estimate_step(m: GameMap, a: int, b: int, end: int)
    requires
        tile_step_ok(m, a, b),
    ensures
        estimate(m, a, end) <= tile_cost(m, a, b) + estimate(m, b, end),
{
}

/// Along a walk, the estimate at its first tile is at most the walk's cost
/// plus the estimate at its last.
proof fn lemma_estimate_walk(m: GameMap, p: Seq<usize>, end: int)
    requires
        p.len() >= 1,
        forall|k: int| 0 <= k < p.len() - 1 ==> tile_step_ok(m, #[trigger] p[k] as int, p[k + 1] as int),
    ensures
        estimate(m, p[0] as int, end) <= path_cost(m, p) + estimate(m, p.last() as int, end),
    decreases p.len(),
{
    if p.len() > 1 {
        let q = p.subrange(1, p.len() as int);
        assert forall|k: int| 0 <= k < q.len() - 1 implies tile_step_ok(m, #[trigger] q[k] as int, q[k + 1] as int) by {
            assert(q[k] == p[k + 1] && q[k + 1] == p[k + 2]);
        }
        lemma_estimate_walk(m, q, end);
        assert(tile_step_ok(m, p[0] as int, p[1] as int));
        lemma_estimate_step(m, p[0] as int, p[1] as int, end);
    }
}

/// The cost of a walk splits at any of its tiles.
proof fn lemma_cost_split(m: GameMap, p: Seq<usize>, k: int)
    requires
        0 <= k < p.len(),
    ensures
        path_cost(m, p) == path_cost(m, p.subrange(0, k + 1)) + path_cost(m, p.subrange(k, p.len() as int)),
    decreases k,
{
    if k == 0 {
        assert(p.subrange(0, p.len() as int) =~= p);
    } else {
        let q = p.subrange(1, p.len() as int);
        lemma_cost_split(m, q, k - 1);
        assert(q.subrange(0, k) =~= p.subrange(0, k + 1).subrange(1, k + 1));
        assert(q.subrange(k - 1, q.len() as int) =~= p.subrange(k, p.len() as int));
    }
}

/// A prefix of a walk from `start` is a walk from `start`.
proof fn lemma_prefix_ok(m: GameMap, p: Seq<usize>, start: int, end: int, u: int)
    requires
        path_ok(m, p, start, end),
        0 <= u < p.len(),
    ensures
        path_ok(m, p.subrange(0, u + 1), start, p[u] as int),
{
    let q = p.subrange(0, u + 1);
    assert forall|k: int| 0 <= k < q.len() implies #[trigger] q[k] < m.count() by {
        assert(q[k] == p[k]);
    }
    assert forall|k: int| 0 <= k < q.len() - 1 implies tile_step_ok(m, #[trigger] q[k] as int, q[k + 1] as int) by {
        assert(q[k] == p[k] && q[k + 1] == p[k + 1]);
    }
}

/// The first tile of a walk that is not closed.
proof fn lemma_first_unclosed(p: Seq<usize>, closed: Seq<bool>, k: int) -> (u: int)
    requires
        0 <= k < p.len(),
        forall|i: int| 0 <= i < p.len() ==> #[trigger] p[i] < closed.len(),
        forall|i: int| 0 <= i < k ==> closed[#[trigger] p[i] as int],
        !closed[p.last() as int],
    ensures
        k <= u < p.len(),
        !closed[p[u] as int],
        forall|i: int| 0 <= i < u ==> closed[#[trigger] p[i] as int],
    decreases p.len() - k,
{
    if !closed[p[k] as int] {
        k
    } else {
        lemma_first_unclosed(p, closed, k + 1)
    }
}

/// The search tree: every linked tile is reached by a valid step from its
/// parent, at the parent's cost plus the step's, and every reached tile but
/// the root has a parent.
pub open spec fn tree_ok(m: GameMap, g: Seq<u64>, parent: Seq<usize>, start: int) -> bool {
    &&& g.len() == m.count()
    &&& parent.len() == m.count()
    &&& 0 <= start < m.count()
    &&& g[start] == 0
    &&& parent[start] == NO_PARENT
    &&& forall|j: int|
        0 <= j < m.count() && #[trigger] parent[j] != NO_PARENT ==> {
            &&& parent[j] < m.count()
            &&& tile_step_ok(m, parent[j] as int, j)
            &&& g[j] == g[parent[j] as int] + tile_cost(m, parent[j] as int, j)
            &&& g[j] != UNREACHED
        }
    &&& forall|j: int|
        0 <= j < m.count() && #[trigger] g[j] != UNREACHED && j != start ==> parent[j] != NO_PARENT
}

impl GameMap {
    /// The search's estimate of the cost between tiles `idx1` and `idx2`.
    pub fn get_pathing_distance(&self, idx1: usize, idx2: usize) -> (d: u64)
        requires
            self.wf(),
            idx1 < self.count(),
            idx2 < self.count(),
        ensures
            d == octile(self.x_of(idx2 as int) - self.x_of(idx1 as int), self.y_of(idx2 as int) - self.y_of(idx1 as int)),
            d <= DIAGONAL_COST * crate::map::MAX_TILES,
    {
        proof {
            self.lemma_coords(idx1 as int);
            self.lemma_coords(idx2 as int);
        }
        let w = self.width as usize;
        let x1 = (idx1 % w) as i64;
        let y1 = (idx1 / w) as i64;
        let x2 = (idx2 % w) as i64;
        let y2 = (idx2 / w) as i64;
        let ax: u64 = (if x2 >= x1 { x2 - x1 } else { x1 - x2 }) as u64;
        let ay: u64 = (if y2 >= y1 { y2 - y1 } else { y1 - y2 }) as u64;
        assert(ax <= 1000000 && ay <= 1000000);
        assert(CARDINAL_COST * ax + (DIAGONAL_COST - CARDINAL_COST) * ay <= DIAGONAL_COST * crate::map::MAX_TILES) by (nonlinear_arith)
            requires
                ax <= 1000000,
                ay <= 1000000,
        ;
        assert(CARDINAL_COST * ay + (DIAGONAL_COST - CARDINAL_COST) * ax <= DIAGONAL_COST * crate::map::MAX_TILES) by (nonlinear_arith)
            requires
                ax <= 1000000,
                ay <= 1000000,
        ;
        if ax >= ay {
            CARDINAL_COST * ax + (DIAGONAL_COST - CARDINAL_COST) * ay
        } else {
            CARDINAL_COST * ay + (DIAGONAL_COST - CARDINAL_COST) * ax
        }
    }
}

/// Follows the parent links back from `end` to `start`, and returns the walk
/// in forward order; it costs what the search recorded for `end`.
fn reconstruct_path(
    map: &GameMap,
    g: &Vec<u64>,
    parent: &Vec<usize>,
    start: usize,
    end: usize,
) -> (path: Vec<usize>)
    requires
        map.wf(),
        tree_ok(*map, g@, parent@, start as int),
        end < map.count(),
        g@[end as int] != UNREACHED,
    ensures
        path_ok(*map, path@, start as int, end as int),
        path_cost(*map, path@) == g@[end as int],
{
    let mut path: Vec<usize> = Vec::new();
    path.push(end);
    let mut cur = end;
    while cur != start
        invariant
            tree_ok(*map, g@, parent@, start as int),
            cur < map.count(),
            g@[cur as int] != UNREACHED,
            path@.len() >= 1,
            path@[0] == cur,
            path@.last() == end,
            forall|k: int| 0 <= k < path@.len() ==> #[trigger] path@[k] < map.count(),
            forall|k: int|
                0 <= k < path@.len() - 1 ==> tile_step_ok(*map, #[trigger] path@[k] as int, path@[k + 1] as int),
            path_cost(*map, path@) + g@[cur as int] == g@[end as int],
        decreases g@[cur as int],
    {
        let prev = parent[cur];
        let ghost before = path@;
        path.insert(0, prev);
        proof {
            assert(path@.subrange(1, path@.len() as int) =~= before);
            assert(path@[1] == cur);
            assert forall|k: int| 0 <= k < path@.len() implies #[trigger] path@[k] < map.count() by {
                if k > 0 {
                    assert(path@[k] == before[k - 1]);
                }
            }
            assert forall|k: int|
                0 <= k < path@.len() - 1 implies tile_step_ok(*map, #[trigger] path@[k] as int, path@[k + 1] as int) by {
                if k > 0 {
                    assert(path@[k] == before[k - 1] && path@[k + 1] == before[k]);
                }
            }
        }
        cur = prev;
    }
    path
}

/// Some walk of valid steps leads from tile `start` to tile `end`.
pub open spec fn reachable(m: GameMap, start: int, end: int) -> bool {
    exists|p: Seq<usize>| path_ok(m, p, start, end)
}

/// The search's bookkeeping once no tile is open: every reached tile is
/// closed, and every step out of a closed tile reaches a tile.
pub open spec fn closed_region(m: GameMap, g: Seq<u64>, closed: Seq<bool>) -> bool {
    &&& g.len() == m.count()
    &&& closed.len() == m.count()
    &&& forall|j: int| 0 <= j < m.count() && #[trigger] g[j] != UNREACHED ==> closed[j]
    &&& forall|c: int, j: int|
        0 <= c < m.count() && 0 <= j < m.count() && #[trigger] closed[c] && #[trigger] tile_step_ok(m, c, j)
            ==> g[j] != UNREACHED
}

/// A walk that starts on a closed tile of a closed region stays in it.
proof fn lemma_walk_stays_closed(m: GameMap, g: Seq<u64>, closed: Seq<bool>, p: Seq<usize>, k: int)
    requires
        closed_region(m, g, closed),
        p.len() >= 1,
        forall|i: int| 0 <= i < p.len() ==> #[trigger] p[i] < m.count(),
        forall|i: int| 0 <= i < p.len() - 1 ==> tile_step_ok(m, #[trigger] p[i] as int, p[i + 1] as int),
        closed[p[0] as int],
        0 <= k < p.len(),
    ensures
        closed[p[k] as int],
    decreases k,
{
    if k > 0 {
        lemma_walk_stays_closed(m, g, closed, p, k - 1);
        assert(tile_step_ok(m, p[k - 1] as int, p[k] as int));
        assert(p[k - 1] < m.count() && p[k] < m.count());
    }
}

/// The search state when `best` is chosen: no walk reaches it for less than
/// its recorded cost.
proof fn lemma_best_is_cheapest(
    m: GameMap,
    g: Seq<u64>,
    open: Seq<bool>,
    closed: Seq<bool>,
    start: int,
    best: int,
    end: int,
)
    requires
        g.len() == m.count(),
        open.len() == m.count(),
        closed.len() == m.count(),
        0 <= start < m.count(),
        0 <= best < m.count(),
        0 <= end < m.count(),
        g[start] == 0,
        open[best],
        forall|j: int| 0 <= j < m.count() && #[trigger] open[j] ==> g[j] != UNREACHED && !closed[j],
        forall|j: int| 0 <= j < m.count() && #[trigger] g[j] != UNREACHED ==> open[j] || closed[j],
        forall|c: int, j: int|
            0 <= c < m.count() && 0 <= j < m.count() && #[trigger] closed[c] && #[trigger] tile_step_ok(m, c, j)
                ==> g[j] != UNREACHED,
        forall|c: int, j: int|
            0 <= c < m.count() && 0 <= j < m.count() && #[trigger] closed[c] && #[trigger] tile_step_ok(m, c, j)
                && !closed[j] ==> g[j] <= g[c] + tile_cost(m, c, j),
        forall|c: int| 0 <= c < m.count() && #[trigger] closed[c] ==> no_cheaper(m, start, c, g[c] as int),
        forall|j: int|
            0 <= j < m.count() && #[trigger] open[j] ==> g[best] + estimate(m, best, end) <= g[j] + estimate(m, j, end),
    ensures
        no_cheaper(m, start, best, g[best] as int),
{
    assert forall|p: Seq<usize>| #[trigger] path_ok(m, p, start, best) implies g[best] <= path_cost(m, p) by {
        let u = lemma_first_unclosed(p, closed, 0);
        let pre = p.subrange(0, u + 1);
        let post = p.subrange(u, p.len() as int);
        if u == 0 {
            assert(p[0] == start);
            assert(pre.len() == 1);
        } else {
            let c = p[u - 1] as int;
            assert(closed[c]);
            lemma_prefix_ok(m, p, start, best, u - 1);
            assert(no_cheaper(m, start, c, g[c] as int));
            assert(g[c] <= path_cost(m, p.subrange(0, u)));
            assert(tile_step_ok(m, p[u - 1] as int, p[u] as int));
            assert(g[p[u] as int] <= g[c] + tile_cost(m, c, p[u] as int));
            lemma_cost_split(m, pre, u - 1);
            assert(pre.subrange(0, u) =~= p.subrange(0, u));
            let tail = pre.subrange(u - 1, u + 1);
            assert(tail.len() == 2 && tail[0] == p[u - 1] && tail[1] == p[u]);
            assert(path_cost(m, tail.subrange(1, 2)) == 0);
        }
        assert(g[p[u] as int] != UNREACHED);
        assert(open[p[u] as int]);
        assert forall|k: int| 0 <= k < post.len() - 1 implies tile_step_ok(m, #[trigger] post[k] as int, post[k + 1] as int) by {
            assert(post[k] == p[u + k] && post[k + 1] == p[u + k + 1]);
        }
        lemma_estimate_walk(m, post, end);
        lemma_cost_split(m, p, u);
    }
}

/// A* search over the map graph from tile `start` to tile `end`. Each round
/// expands the open tile of least estimated total cost (the lowest index on a
/// tie); the neighbours of a tile are tried in the order of
/// `get_available_exits`. A walk is returned exactly when one exists; it uses
/// only valid steps, and no walk between the two tiles costs less.
#[verifier::rlimit(100)]
#[verifier::spinoff_prover]
pub fn a_star_search(map: &GameMap, start: usize, end: usize) -> (r: Option<Vec<usize>>)
    requires
        map.wf(),
        start < map.count(),
        end < map.count(),
    ensures
        r is Some ==> path_ok(*map, r->0@, start as int, end as int),
        r is Some ==> no_cheaper(*map, start as int, end as int, path_cost(*map, r->0@)),
        r is None ==> !reachable(*map, start as int, end as int),
{
    let n = map.tiles.len();
    let mut g: Vec<u64> = Vec::new();
    let mut parent: Vec<usize> = Vec::new();
    let mut open: Vec<bool> = Vec::new();
    let mut closed: Vec<bool> = Vec::new();
    let mut i: usize = 0;
    while i < n
        invariant
            i <= n,
            n == map.count(),
            g@.len() == i,
            parent@.len() == i,
            open@.len() == i,
            closed@.len() == i,
            forall|j: int| 0 <= j < i ==> #[trigger] g@[j] == UNREACHED,
            forall|j: int| 0 <= j < i ==> #[trigger] parent@[j] == NO_PARENT,
            forall|j: int| 0 <= j < i ==> !#[trigger] open@[j],
            forall|j: int| 0 <= j < i ==> !#[trigger] closed@[j],
        decreases n - i,
    {
        g.push(UNREACHED);
        parent.push(NO_PARENT);
        open.push(false);
        closed.push(false);
        i = i + 1;
    }
    g.set(start, 0);
    open.set(start, true);
    let ghost mut closed_set: Set<int> = Set::empty();
    let mut round: usize = 0;
    while round < n
        invariant
            map.wf(),
            n == map.count(),
            n <= crate::map::MAX_TILES,
            start < n,
            end < n,
            round <= n,
            open@.len() == n,
            closed@.len() == n,
            tree_ok(*map, g@, parent@, start as int),
            forall|j: int| 0 <= j < n && #[trigger] g@[j] != UNREACHED ==> g@[j] <= DIAGONAL_COST * round,
            forall|j: int| 0 <= j < n && #[trigger] open@[j] ==> g@[j] != UNREACHED && !closed@[j],
            forall|j: int| 0 <= j < n && #[trigger] closed@[j] ==> g@[j] != UNREACHED,
            forall|j: int| 0 <= j < n && #[trigger] g@[j] != UNREACHED ==> open@[j] || closed@[j],
            forall|c: int, j: int|
                0 <= c < n && 0 <= j < n && #[trigger] closed@[c] && #[trigger] tile_step_ok(*map, c, j)
                    ==> g@[j] != UNREACHED,
            !closed@[end as int],
            forall|j: int| 0 <= j < n && #[trigger] parent@[j] != NO_PARENT ==> closed@[parent@[j] as int],
            forall|c: int, j: int|
                0 <= c < n && 0 <= j < n && #[trigger] closed@[c] && #[trigger] tile_step_ok(*map, c, j)
                    && !closed@[j] ==> g@[j] <= g@[c] + tile_cost(*map, c, j),
            forall|c: int| 0 <= c < n && #[trigger] closed@[c] ==> no_cheaper(*map, start as int, c, g@[c] as int),
            closed_set.finite(),
            closed_set.len() == round,
            forall|j: int| #[trigger] closed_set.contains(j) <==> (0 <= j < n && closed@[j]),
        decreases n - round,
    {
        let mut best: usize = NO_PARENT;
        let mut best_f: u64 = UNREACHED;
        let mut k: usize = 0;
        while k < n
            invariant
                map.wf(),
                n == map.count(),
                n <= crate::map::MAX_TILES,
                round <= n,
                end < n,
                k <= n,
                open@.len() == n,
                g@.len() == n,
                forall|j: int| 0 <= j < n && #[trigger] g@[j] != UNREACHED ==> g@[j] <= DIAGONAL_COST * round,
                forall|j: int| 0 <= j < n && #[trigger] open@[j] ==> g@[j] != UNREACHED,
                best == NO_PARENT || (best < n && open@[best as int]),
                best == NO_PARENT ==> forall|j: int| 0 <= j < k ==> !#[trigger] open@[j],
                best != NO_PARENT ==> best_f == g@[best as int] + estimate(*map, best as int, end as int),
                best != NO_PARENT ==> forall|j: int|
                    0 <= j < k && #[trigger] open@[j] ==> best_f <= g@[j] + estimate(*map, j, end as int),
            decreases n - k,
        {
            if open[k] {
                let h = map.get_pathing_distance(k, end);
                assert(DIAGONAL_COST * round <= DIAGONAL_COST * crate::map::MAX_TILES) by (nonlinear_arith)
                    requires
                        round <= crate::map::MAX_TILES,
                ;
                let f = g[k] + h;
                if best == NO_PARENT || f < best_f {
                    best = k;
                    best_f = f;
                }
            }
            k = k + 1;
        }
        if best == NO_PARENT {
            proof {
                assert(closed_region(*map, g@, closed@));
                assert(g@[start as int] != UNREACHED);
                if reachable(*map, start as int, end as int) {
                    let p = choose|p: Seq<usize>| path_ok(*map, p, start as int, end as int);
                    lemma_walk_stays_closed(*map, g@, closed@, p, p.len() - 1);
                }
            }
            return None;
        }
        proof {
            lemma_best_is_cheapest(*map, g@, open@, closed@, start as int, best as int, end as int);
        }
        if best == end {
            return Some(reconstruct_path(map, &g, &parent, start, end));
        }
        open.set(best, false);
        closed.set(best, true);
        proof {
            closed_set = closed_set.insert(best as int);
        }
        let gb = g[best];
        let exits = map.get_available_exits(best);
        let ghost g_start = g@;
        let mut e: usize = 0;
        while e < exits.len()
            invariant
                map.wf(),
                n == map.count(),
                n <= crate::map::MAX_TILES,
                start < n,
                end < n,
                round < n,
                best < n,
                best != end,
                gb == g@[best as int],
                gb <= DIAGONAL_COST * round,
                e <= exits@.len(),
                exits_sound(*map, best as int, exits@),
                open@.len() == n,
                closed@.len() == n,
                closed@[best as int],
                g_start.len() == n,
                tree_ok(*map, g@, parent@, start as int),
                forall|j: int|
                    0 <= j < n && #[trigger] g@[j] != UNREACHED ==> g@[j] <= DIAGONAL_COST * (round + 1),
                forall|j: int| 0 <= j < n && #[trigger] open@[j] ==> g@[j] != UNREACHED && !closed@[j],
                forall|j: int| 0 <= j < n && #[trigger] closed@[j] ==> g@[j] != UNREACHED,
                forall|j: int| 0 <= j < n && #[trigger] g@[j] != UNREACHED ==> open@[j] || closed@[j],
                forall|j: int| 0 <= j < n && #[trigger] g_start[j] != UNREACHED ==> g@[j] != UNREACHED,
                forall|c: int, j: int|
                    0 <= c < n && 0 <= j < n && c != best && #[trigger] closed@[c] && #[trigger] tile_step_ok(*map, c, j)
                        ==> g_start[j] != UNREACHED,
                forall|q: int| 0 <= q < e ==> g@[(#[trigger] exits@[q]).0 as int] != UNREACHED,
                !closed@[end as int],
                forall|j: int| 0 <= j < n && #[trigger] parent@[j] != NO_PARENT ==> closed@[parent@[j] as int],
                forall|j: int| 0 <= j < n ==> #[trigger] g@[j] <= g_start[j],
                forall|j: int| 0 <= j < n && #[trigger] closed@[j] ==> g@[j] == g_start[j],
                forall|c: int, j: int|
                    0 <= c < n && 0 <= j < n && c != best && #[trigger] closed@[c] && #[trigger] tile_step_ok(*map, c, j)
                        && !closed@[j] ==> g_start[j] <= g_start[c] + tile_cost(*map, c, j),
                forall|q: int|
                    0 <= q < e && !closed@[(#[trigger] exits@[q]).0 as int] ==> g@[exits@[q].0 as int] <= gb
                        + exits@[q].1,
                forall|c: int| 0 <= c < n && #[trigger] closed@[c] ==> no_cheaper(*map, start as int, c, g@[c] as int),
            decreases exits@.len() - e,
        {
            let (j, c) = exits[e];
            assert(exit_entry_ok(*map, best as int, exits@[e as int]));
            if !closed[j] {
                assert(c <= DIAGONAL_COST);
                assert(DIAGONAL_COST * round + DIAGONAL_COST == DIAGONAL_COST * (round + 1)) by (nonlinear_arith);
                let ng = gb + c;
                if ng < g[j] {
                    assert(j != best);
                    g.set(j, ng);
                    parent.set(j, best);
                    open.set(j, true);
                }
            }
            e = e + 1;
        }
        proof {
            assert forall|c: int, j: int|
                0 <= c < n && 0 <= j < n && #[trigger] closed@[c] && #[trigger] tile_step_ok(*map, c, j)
                    && !closed@[j] implies g@[j] <= g@[c] + tile_cost(*map, c, j) by {
                if c == best {
                    assert(has_exit(exits@, j));
                    let q = choose|q: int| 0 <= q < exits@.len() && (#[trigger] exits@[q]).0 == j;
                    assert(exit_entry_ok(*map, best as int, exits@[q]));
                } else {
                    assert(g@[j] <= g_start[j]);
                }
            }
            assert forall|j: int| 0 <= j < n && #[trigger] g@[j] != UNREACHED implies g@[j] <= DIAGONAL_COST * (round + 1) by {}
            assert forall|c: int, j: int|
                0 <= c < n && 0 <= j < n && #[trigger] closed@[c] && #[trigger] tile_step_ok(*map, c, j)
                    implies g@[j] != UNREACHED by {
                if c == best {
                    assert(has_exit(exits@, j));
                    let q = choose|q: int| 0 <= q < exits@.len() && (#[trigger] exits@[q]).0 == j;
                    assert(g@[(exits@[q]).0 as int] != UNREACHED);
                } else {
                    assert(g_start[j] != UNREACHED);
                }
            }
        }
        round = round + 1;
    }
    proof {
        vstd::set_lib::lemma_int_range(0, n as int);
        assert(closed_set.subset_of(vstd::set_lib::set_int_range(0, n as int)));
        vstd::set_lib::lemma_subset_equality(closed_set, vstd::set_lib::set_int_range(0, n as int));
        assert(vstd::set_lib::set_int_range(0, n as int).contains(end as int));
    }
    None
}

} // verus!
