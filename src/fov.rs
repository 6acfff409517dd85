//! Field of view on the tile grid. A tile is seen when it is within range and
//! the straight line to it, drawn from either end, crosses no wall; taking
//! either end makes sight symmetric. bracket-pathfinding's sweeps, its
//! symmetric shadowcasting included, reach the map only through its
//! `BaseMap` and `Algorithm2D` traits; implementing those outside traits for
//! the verified map is not possible inside the verified crate, so sight is
//! computed here.

use vstd::prelude::*;
use crate::components::Position;
use crate::map::{GameMap, TileType};
use vstd::seq_lib::lemma_seq_contains_after_push;

verus! {

/// Largest sight radius the sweep accepts.
pub const MAX_RANGE: i32 = 1000;

pub open spec fn abs_int(v: int) -> int {
    if v >= 0 { v } else { -v }
}

/// Number of steps of the line from `a` to `b`: the larger coordinate gap.
pub open spec fn line_len(a: Position, b: Position) -> int {
    let dx = abs_int(b.x - a.x);
    let dy = abs_int(b.y - a.y);
    if dx >= dy { dx } else { dy }
}

/// Offset of the `i`-th of `n` steps along a gap of `d`, rounded to the
/// nearest integer (halves away from zero).
pub open spec fn step_offset(i: int, d: int, n: int) -> int {
    if d >= 0 { (2 * i * d + n) / (2 * n) } else { -((2 * i * (-d) + n) / (2 * n)) }
}

/// The `i`-th point of the line drawn from `a` towards `b`.
pub open spec fn line_point(a: Position, b: Position, i: int) -> (int, int) {
    let n = line_len(a, b);
    (a.x + step_offset(i, b.x - a.x, n), a.y + step_offset(i, b.y - a.y, n))
}

pub open spec fn opaque_at(m: GameMap, x: int, y: int) -> bool {
    m.tiles@[m.idx(x, y)] == crate::map::TileType::Wall
}

/// No wall stands strictly between `a` and `b` on the line drawn from `a`.
pub open spec fn line_clear(m: GameMap, a: Position, b: Position) -> bool {
    forall|i: int|
        1 <= i < line_len(a, b) ==> !#[trigger] opaque_at(
            m,
            line_point(a, b, i).0,
            line_point(a, b, i).1,
        )
}

pub open spec fn dist2(a: Position, b: Position) -> int {
    (b.x - a.x) * (b.x - a.x) + (b.y - a.y) * (b.y - a.y)
}

/// `b` is on the grid, within `range` of `a`, and the line between them is
/// clear when drawn from one end or from the other.
pub open spec fn can_see(m: GameMap, a: Position, b: Position, range: int) -> bool {
    &&& m.in_bounds(b.x as int, b.y as int)
    &&& dist2(a, b) <= range * range
    &&& (line_clear(m, a, b) || line_clear(m, b, a))
}

/// Sight is symmetric: whenever both tiles are on the grid, `a` sees `b`
/// exactly when `b` sees `a`.
pub proof fn lemma_fov_symmetric(m: GameMap, a: Position, b: Position, range: int)
    requires
        m.in_bounds(a.x as int, a.y as int),
        m.in_bounds(b.x as int, b.y as int),
    ensures
        can_see(m, a, b, range) <==> can_see(m, b, a, range),
{
    assert(dist2(a, b) == dist2(b, a)) by (nonlinear_arith);
}

proof fn lemma_step_offset_bounds(i: int, d: int, n: int)
    requires
        0 <= i <= n,
        abs_int(d) <= n,
        0 < n,
    ensures
        abs_int(step_offset(i, d, n)) <= abs_int(d),
        0 <= step_offset(i, d, n) || d < 0,
        step_offset(i, d, n) <= 0 || d > 0,
{
    let e = abs_int(d);
    assert(0 <= 2 * i * e + n) by (nonlinear_arith)
        requires
            0 <= i,
            0 <= e,
            0 < n,
    ;
    assert(2 * i * e + n < 2 * n * (e + 1)) by (nonlinear_arith)
        requires
            0 <= i <= n,
            0 <= e,
            0 < n,
    ;
    let t = i * e;
    assert(2 * (i as int) * (e as int) == 2 * (t as int)) by (nonlinear_arith)
        requires
            t == i * e,
    ;
    let q = (2 * t + n) / (2 * n);
    vstd::arithmetic::div_mod::lemma_div_pos_is_pos(2 * i * e + n, 2 * n);
    vstd::arithmetic::div_mod::lemma_div_by_multiple_is_strongly_ordered(
        2 * i * e + n,
        2 * n * (e + 1),
        e + 1,
        2 * n,
    );
    assert(2 * n * (e + 1) == (e + 1) * (2 * n)) by (nonlinear_arith);
    vstd::arithmetic::div_mod::lemma_div_multiples_vanish(e + 1, 2 * n);
}

/// The points of a line stay within the box spanned by its ends.
pub proof fn lemma_line_point_in_box(a: Position, b: Position, i: int)
    requires
        0 <= i <= line_len(a, b),
        line_len(a, b) > 0,
    ensures
        min_of(a.x as int, b.x as int) <= line_point(a, b, i).0 <= max_of(a.x as int, b.x as int),
        min_of(a.y as int, b.y as int) <= line_point(a, b, i).1 <= max_of(a.y as int, b.y as int),
{
    let n = line_len(a, b);
    lemma_step_offset_bounds(i, b.x - a.x, n);
    lemma_step_offset_bounds(i, b.y - a.y, n);
}

pub open spec fn min_of(a: int, b: int) -> int {
    if a <= b { a } else { b }
}

pub open spec fn max_of(a: int, b: int) -> int {
    if a >= b { a } else { b }
}

/// A tile that `a` can see lies within `range` of it along each axis.
pub proof fn lemma_seen_in_box(m: GameMap, a: Position, b: Position, range: int)
    requires
        can_see(m, a, b, range),
        0 <= range,
    ensures
        a.x - range <= b.x <= a.x + range,
        a.y - range <= b.y <= a.y + range,
{
    let dx = b.x - a.x;
    let dy = b.y - a.y;
    assert(dx * dx <= range * range) by (nonlinear_arith)
        requires
            dx * dx + dy * dy <= range * range,
    ;
    assert(dy * dy <= range * range) by (nonlinear_arith)
        requires
            dx * dx + dy * dy <= range * range,
    ;
    assert(-range <= dx <= range) by (nonlinear_arith)
        requires
            dx * dx <= range * range,
            0 <= range,
    ;
    assert(-range <= dy <= range) by (nonlinear_arith)
        requires
            dy * dy <= range * range,
            0 <= range,
    ;
}

fn step_offset_exec(i: i64, d: i64, n: i64) -> (r: i64)
    requires
        0 <= i <= n,
        abs_int(d as int) <= n,
        0 < n <= 2000000,
    ensures
        r == step_offset(i as int, d as int, n as int),
{
    let e: i64 = if d >= 0 { d } else { -d };
    assert(0 <= i * e <= n * n) by (nonlinear_arith)
        requires
            0 <= i <= n,
            0 <= e <= n,
    ;
    assert(n * n <= 4000000000000) by (nonlinear_arith)
        requires
            0 < n <= 2000000,
    ;
    let t = i * e;
    assert(2 * (i as int) * (e as int) == 2 * (t as int)) by (nonlinear_arith)
        requires
            t == i * e,
    ;
    let q = (2 * t + n) / (2 * n);
    if d >= 0 { q } else { -q }
}

/// Decides `line_clear`: walks the line from `a` to `b` and stops at the
/// first wall strictly between them.
pub fn line_is_clear(map: &GameMap, a: Position, b: Position) -> (r: bool)
    requires
        map.wf(),
        map.in_bounds(a.x as int, a.y as int),
        map.in_bounds(b.x as int, b.y as int),
    ensures
        r == line_clear(*map, a, b),
{
    let dx: i64 = b.x as i64 - a.x as i64;
    let dy: i64 = b.y as i64 - a.y as i64;
    let adx: i64 = if dx >= 0 { dx } else { -dx };
    let ady: i64 = if dy >= 0 { dy } else { -dy };
    let n: i64 = if adx >= ady { adx } else { ady };
    assert(n == line_len(a, b));
    let mut i: i64 = 1;
    while i < n
        invariant
            1 <= i,
            i <= n || n == 0,
            n == line_len(a, b),
            map.wf(),
            map.in_bounds(a.x as int, a.y as int),
            map.in_bounds(b.x as int, b.y as int),
            n <= 2000000,
            dx == b.x - a.x,
            dy == b.y - a.y,
            forall|j: int|
                1 <= j < i ==> !#[trigger] opaque_at(
                    *map,
                    line_point(a, b, j).0,
                    line_point(a, b, j).1,
                ),
        decreases n - i,
    {
        proof {
            lemma_line_point_in_box(a, b, i as int);
        }
        let px = a.x as i64 + step_offset_exec(i, dx, n);
        let py = a.y as i64 + step_offset_exec(i, dy, n);
        assert(px == line_point(a, b, i as int).0);
        assert(py == line_point(a, b, i as int).1);
        let idx = map.xy_idx(px as i32, py as i32);
        if map.is_opaque(idx) {
            assert(opaque_at(*map, line_point(a, b, i as int).0, line_point(a, b, i as int).1));
            return false;
        }
        i = i + 1;
    }
    true
}

/// The tiles that `origin` sees within `range`, each once.
pub fn field_of_view(map: &GameMap, origin: Position, range: i32) -> (v: Vec<Position>)
    requires
        map.wf(),
        map.in_bounds(origin.x as int, origin.y as int),
        0 <= range <= MAX_RANGE,
    ensures
        v@.no_duplicates(),
        forall|p: Position| v@.contains(p) <==> can_see(*map, origin, p, range as int),
{
    let mut v: Vec<Position> = Vec::new();
    let y_lo: i32 = if origin.y - range > 0 { origin.y - range } else { 0 };
    let y_hi: i32 = if origin.y + range < map.height - 1 { origin.y + range } else { map.height - 1 };
    let x_lo: i32 = if origin.x - range > 0 { origin.x - range } else { 0 };
    let x_hi: i32 = if origin.x + range < map.width - 1 { origin.x + range } else { map.width - 1 };
    assert(0 <= range * range <= 1000000) by (nonlinear_arith)
        requires
            0 <= range <= 1000,
    ;
    let r2: i64 = range as i64 * range as i64;
    let mut y: i32 = y_lo;
    proof {
        assert forall|q: Position| v@.contains(q) <==> (can_see(*map, origin, q, range as int)
            && q.y < y) by {
            if can_see(*map, origin, q, range as int) {
                lemma_seen_in_box(*map, origin, q, range as int);
            }
        }
    }
    while y <= y_hi
        invariant
            map.wf(),
            map.in_bounds(origin.x as int, origin.y as int),
            0 <= range <= MAX_RANGE,
            r2 == range * range,
            y_lo == crate::fov::max_of(origin.y - range, 0),
            y_hi == crate::fov::min_of(origin.y + range, map.height - 1),
            x_lo == crate::fov::max_of(origin.x - range, 0),
            x_hi == crate::fov::min_of(origin.x + range, map.width - 1),
            y_lo <= y <= y_hi + 1,
            v@.no_duplicates(),
            forall|p: Position|
                v@.contains(p) <==> (can_see(*map, origin, p, range as int) && p.y < y),
        decreases y_hi + 1 - y,
    {
        let mut x: i32 = x_lo;
        proof {
            assert forall|q: Position| v@.contains(q) <==> (can_see(*map, origin, q, range as int)
                && (q.y < y || (q.y == y && q.x < x))) by {
                if can_see(*map, origin, q, range as int) {
                    lemma_seen_in_box(*map, origin, q, range as int);
                }
            }
        }
        while x <= x_hi
            invariant
                map.wf(),
                map.in_bounds(origin.x as int, origin.y as int),
                0 <= range <= MAX_RANGE,
                r2 == range * range,
                x_lo == crate::fov::max_of(origin.x - range, 0),
                x_hi == crate::fov::min_of(origin.x + range, map.width - 1),
                y_lo <= y <= y_hi,
                y_lo == crate::fov::max_of(origin.y - range, 0),
                y_hi == crate::fov::min_of(origin.y + range, map.height - 1),
                x_lo <= x <= x_hi + 1,
                v@.no_duplicates(),
                forall|p: Position|
                    v@.contains(p) <==> (can_see(*map, origin, p, range as int) && (p.y < y || (
                    p.y == y && p.x < x))),
            decreases x_hi + 1 - x,
        {
            let p = Position { x, y };
            let ddx: i64 = x as i64 - origin.x as i64;
            let ddy: i64 = y as i64 - origin.y as i64;
            assert(0 <= ddx * ddx <= 1000000000000) by (nonlinear_arith)
                requires
                    -1000000 <= ddx <= 1000000,
            ;
            assert(0 <= ddy * ddy <= 1000000000000) by (nonlinear_arith)
                requires
                    -1000000 <= ddy <= 1000000,
            ;
            let d2: i64 = ddx * ddx + ddy * ddy;
            assert(d2 == dist2(origin, p));
            let seen = d2 <= r2 && (line_is_clear(map, origin, p) || line_is_clear(map, p, origin));
            assert(seen == can_see(*map, origin, p, range as int));
            let ghost before = v@;
            if seen {
                v.push(p);
                proof {
                    assert forall|q: Position| v@.contains(q) <==> (can_see(*map, origin, q, range as int)
                        && (q.y < y || (q.y == y && q.x < x + 1))) by {
                        lemma_seq_contains_after_push(before, p, q);
                    }
                    assert(!before.contains(p));
                    assert forall|a: int, b: int| 0 <= a < b < v@.len() implies v@[a] != v@[b] by {
                        if b == v@.len() - 1 {
                            assert(before.contains(v@[a]) ==> v@[a] != p);
                            assert(v@[a] == before[a]);
                        }
                    }
                }
            }
            x = x + 1;
        }
        proof {
            assert forall|q: Position| v@.contains(q) <==> (can_see(*map, origin, q, range as int)
                && q.y < y + 1) by {
                if can_see(*map, origin, q, range as int) {
                    lemma_seen_in_box(*map, origin, q, range as int);
                }
            }
        }
        y = y + 1;
    }
    proof {
        assert forall|q: Position| v@.contains(q) <==> can_see(*map, origin, q, range as int) by {
            if can_see(*map, origin, q, range as int) {
                lemma_seen_in_box(*map, origin, q, range as int);
            }
        }
    }
    v
}

/// Sight depends on the grid's size and walls alone.
pub proof fn lemma_can_see_same_walls(m1: GameMap, m2: GameMap, a: Position, b: Position, range: int)
    requires
        m1.tiles == m2.tiles,
        m1.width == m2.width,
        m1.height == m2.height,
    ensures
        can_see(m1, a, b, range) == can_see(m2, a, b, range),
{
    assert(line_clear(m1, a, b) == line_clear(m2, a, b)) by {
        assert forall|i: int| #![auto] opaque_at(m1, line_point(a, b, i).0, line_point(a, b, i).1) == opaque_at(m2, line_point(a, b, i).0, line_point(a, b, i).1) by {}
    }
    assert(line_clear(m1, b, a) == line_clear(m2, b, a)) by {
        assert forall|i: int| #![auto] opaque_at(m1, line_point(b, a, i).0, line_point(b, a, i).1) == opaque_at(m2, line_point(b, a, i).0, line_point(b, a, i).1) by {}
    }
}

} // verus!
