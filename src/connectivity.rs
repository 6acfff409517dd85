use vstd::prelude::*;
use crate::map::{
    GameMap, TileType, in_room, max_int, min_int, on_corridor_hv, on_corridor_vh, on_h_tunnel,
    on_v_tunnel, room_fits, MAPHEIGHT, MAPWIDTH, MAX_ROOMS,
};
use crate::rect::{Rect, center_of};

verus! {

/// `(x, y)` is a floor tile of the map.
pub open spec fn floor_xy(m: GameMap, x: int, y: int) -> bool {
    m.in_bounds(x, y) && m.tiles@[m.idx(x, y)] == TileType::Floor
}

/// `a` and `b` are side by side: one step apart along a row or a column.
pub open spec fn unit_step(a: (int, int), b: (int, int)) -> bool {
    ||| a.0 == b.0 && (a.1 - b.1 == 1 || b.1 - a.1 == 1)
    ||| a.1 == b.1 && (a.0 - b.0 == 1 || b.0 - a.0 == 1)
}

/// A walk over floor tiles by steps along rows and columns.
pub open spec fn floor_walk(m: GameMap, w: Seq<(int, int)>) -> bool {
    &&& w.len() >= 1
    &&& forall|k: int| 0 <= k < w.len() ==> floor_xy(m, (#[trigger] w[k]).0, w[k].1)
    &&& forall|k: int| 0 <= k < w.len() - 1 ==> unit_step(#[trigger] w[k], w[k + 1])
}

/// Some floor walk leads from `a` to `b`.
pub open spec fn connected(m: GameMap, a: (int, int), b: (int, int)) -> bool {
    exists|w: Seq<(int, int)>| floor_walk(m, w) && w[0] == a && w.last() == b
}

proof fn lemma_connected_refl(m: GameMap, a: (int, int))
    requires
        floor_xy(m, a.0, a.1),
    ensures
        connected(m, a, a),
{
    let w = seq![a];
    assert(w[0] == a && w.last() == a);
    assert(floor_walk(m, w) && w[0] == a && w.last() == a);
}

proof fn lemma_connected_step(m: GameMap, a: (int, int), b: (int, int))
    requires
        floor_xy(m, a.0, a.1),
        floor_xy(m, b.0, b.1),
        unit_step(a, b),
    ensures
        connected(m, a, b),
{
    let w = seq![a, b];
    assert(w[0] == a && w.last() == b && w[1] == b);
    assert(forall|k: int| 0 <= k < w.len() ==> floor_xy(m, (#[trigger] w[k]).0, w[k].1));
    assert(floor_walk(m, w) && w[0] == a && w.last() == b);
}

proof fn lemma_connected_trans(m: GameMap, a: (int, int), b: (int, int), c: (int, int))
    requires
        connected(m, a, b),
        connected(m, b, c),
    ensures
        connected(m, a, c),
{
    let w1 = choose|w: Seq<(int, int)>| floor_walk(m, w) && w[0] == a && w.last() == b;
    let w2 = choose|w: Seq<(int, int)>| floor_walk(m, w) && w[0] == b && w.last() == c;
    let w = w1 + w2.subrange(1, w2.len() as int);
    let n1 = w1.len() as int;
    assert forall|k: int| 0 <= k < w.len() implies floor_xy(m, (#[trigger] w[k]).0, w[k].1) by {
        if k < n1 {
            assert(w[k] == w1[k]);
        } else {
            assert(w[k] == w2[k - n1 + 1]);
        }
    }
    assert forall|k: int| 0 <= k < w.len() - 1 implies unit_step(#[trigger] w[k], w[k + 1]) by {
        if k < n1 - 1 {
            assert(w[k] == w1[k] && w[k + 1] == w1[k + 1]);
        } else if k == n1 - 1 {
            assert(w[k] == w1[n1 - 1] && w[k + 1] == w2[1]);
            assert(w2[0] == b);
        } else {
            assert(w[k] == w2[k - n1 + 1] && w[k + 1] == w2[k - n1 + 2]);
        }
    }
    if w2.len() == 1 {
        assert(w =~= w1);
    } else {
        assert(w.last() == w2.last());
    }
    assert(floor_walk(m, w) && w[0] == a && w.last() == c);
}

/// Along row `y`, `(x1, y)` reaches `(x2, y)` when the run between them is floor.
proof fn lemma_row(m: GameMap, y: int, x1: int, x2: int)
    requires
        forall|x: int| min_int(x1, x2) <= x <= max_int(x1, x2) ==> #[trigger] floor_xy(m, x, y),
    ensures
        connected(m, (x1, y), (x2, y)),
    decreases if x1 <= x2 { x2 - x1 } else { x1 - x2 },
{
    assert(floor_xy(m, x1, y));
    if x1 == x2 {
        lemma_connected_refl(m, (x1, y));
    } else {
        let next = if x1 < x2 { x1 + 1 } else { x1 - 1 };
        assert(floor_xy(m, next, y));
        lemma_connected_step(m, (x1, y), (next, y));
        lemma_row(m, y, next, x2);
        lemma_connected_trans(m, (x1, y), (next, y), (x2, y));
    }
}

/// Along column `x`, `(x, y1)` reaches `(x, y2)` when the run between them is floor.
proof fn lemma_column(m: GameMap, x: int, y1: int, y2: int)
    requires
        forall|y: int| min_int(y1, y2) <= y <= max_int(y1, y2) ==> #[trigger] floor_xy(m, x, y),
    ensures
        connected(m, (x, y1), (x, y2)),
    decreases if y1 <= y2 { y2 - y1 } else { y1 - y2 },
{
    assert(floor_xy(m, x, y1));
    if y1 == y2 {
        lemma_connected_refl(m, (x, y1));
    } else {
        let next = if y1 < y2 { y1 + 1 } else { y1 - 1 };
        assert(floor_xy(m, x, next));
        lemma_connected_step(m, (x, y1), (x, next));
        lemma_column(m, x, next, y2);
        lemma_connected_trans(m, (x, y1), (x, next), (x, y2));
    }
}

/// The centre of a generated room lies in its interior.
proof fn lemma_center_in_room(r: Rect)
    requires
        room_fits(r),
    ensures
        in_room(r, center_of(r).0, center_of(r).1),
{
}

/// A standard map whose rooms are carved.
pub open spec fn carved_map(m: GameMap) -> bool {
    &&& m.wf()
    &&& m.width == MAPWIDTH
    &&& m.height == MAPHEIGHT
    &&& m.rooms_fit()
    &&& m.rooms_carved()
}

proof fn lemma_room_floor(m: GameMap, a: int, x: int, y: int)
    requires
        carved_map(m),
        0 <= a < m.rooms@.len(),
        in_room(m.rooms@[a], x, y),
    ensures
        floor_xy(m, x, y),
{
    assert(room_fits(m.rooms@[a]));
    m.lemma_idx(x, y);
    assert(in_room(m.rooms@[a], m.x_of(m.idx(x, y)), m.y_of(m.idx(x, y))));
}

/// Every tile of a carved room is reached from the room's centre.
proof fn lemma_room_connected(m: GameMap, a: int, x: int, y: int)
    requires
        carved_map(m),
        0 <= a < m.rooms@.len(),
        in_room(m.rooms@[a], x, y),
    ensures
        connected(m, center_of(m.rooms@[a]), (x, y)),
{
    let r = m.rooms@[a];
    assert(room_fits(r));
    lemma_center_in_room(r);
    let (cx, cy) = center_of(r);
    assert forall|xx: int| min_int(cx, x) <= xx <= max_int(cx, x) implies #[trigger] floor_xy(m, xx, cy) by {
        lemma_room_floor(m, a, xx, cy);
    }
    lemma_row(m, cy, cx, x);
    assert forall|yy: int| min_int(cy, y) <= yy <= max_int(cy, y) implies #[trigger] floor_xy(m, x, yy) by {
        lemma_room_floor(m, a, x, yy);
    }
    lemma_column(m, x, cy, y);
    lemma_connected_trans(m, (cx, cy), (x, cy), (x, y));
}

/// A carved horizontal-first corridor leads from the centre of `a` to each of
/// its tiles.
proof fn lemma_hv_connected(m: GameMap, a: Rect, b: Rect, x: int, y: int)
    requires
        carved_map(m),
        room_fits(a),
        room_fits(b),
        m.hv_carved(a, b),
        on_corridor_hv(a, b, x, y),
    ensures
        connected(m, center_of(a), (x, y)),
{
    let (ax, ay) = center_of(a);
    let (bx, by) = center_of(b);
    assert forall|px: int, py: int| #[trigger] on_corridor_hv(a, b, px, py) implies floor_xy(m, px, py) by {
        m.lemma_idx(px, py);
        assert(on_corridor_hv(a, b, m.x_of(m.idx(px, py)), m.y_of(m.idx(px, py))));
    }
    if on_h_tunnel(ax, bx, ay, x, y) {
        assert forall|xx: int| min_int(ax, x) <= xx <= max_int(ax, x) implies #[trigger] floor_xy(m, xx, ay) by {
            assert(on_corridor_hv(a, b, xx, ay));
        }
        lemma_row(m, ay, ax, x);
    } else {
        assert forall|xx: int| min_int(ax, bx) <= xx <= max_int(ax, bx) implies #[trigger] floor_xy(m, xx, ay) by {
            assert(on_corridor_hv(a, b, xx, ay));
        }
        lemma_row(m, ay, ax, bx);
        assert forall|yy: int| min_int(ay, y) <= yy <= max_int(ay, y) implies #[trigger] floor_xy(m, bx, yy) by {
            assert(on_corridor_hv(a, b, bx, yy));
        }
        lemma_column(m, bx, ay, y);
        lemma_connected_trans(m, (ax, ay), (bx, ay), (x, y));
    }
}

/// A carved vertical-first corridor leads from the centre of `a` to each of
/// its tiles.
proof fn lemma_vh_connected(m: GameMap, a: Rect, b: Rect, x: int, y: int)
    requires
        carved_map(m),
        room_fits(a),
        room_fits(b),
        m.vh_carved(a, b),
        on_corridor_vh(a, b, x, y),
    ensures
        connected(m, center_of(a), (x, y)),
{
    let (ax, ay) = center_of(a);
    let (bx, by) = center_of(b);
    assert forall|px: int, py: int| #[trigger] on_corridor_vh(a, b, px, py) implies floor_xy(m, px, py) by {
        m.lemma_idx(px, py);
        assert(on_corridor_vh(a, b, m.x_of(m.idx(px, py)), m.y_of(m.idx(px, py))));
    }
    if on_v_tunnel(ay, by, ax, x, y) {
        assert forall|yy: int| min_int(ay, y) <= yy <= max_int(ay, y) implies #[trigger] floor_xy(m, ax, yy) by {
            assert(on_corridor_vh(a, b, ax, yy));
        }
        lemma_column(m, ax, ay, y);
    } else {
        assert forall|yy: int| min_int(ay, by) <= yy <= max_int(ay, by) implies #[trigger] floor_xy(m, ax, yy) by {
            assert(on_corridor_vh(a, b, ax, yy));
        }
        lemma_column(m, ax, ay, by);
        assert forall|xx: int| min_int(ax, x) <= xx <= max_int(ax, x) implies #[trigger] floor_xy(m, xx, by) by {
            assert(on_corridor_vh(a, b, xx, by));
        }
        lemma_row(m, by, ax, x);
        lemma_connected_trans(m, (ax, ay), (ax, by), (x, y));
    }
}

/// The centre of every room is reached from the centre of the first.
proof fn lemma_centers_connected(m: GameMap, k: int)
    requires
        carved_map(m),
        m.corridors_carved(),
        0 <= k < m.rooms@.len(),
    ensures
        connected(m, center_of(m.rooms@[0]), center_of(m.rooms@[k])),
    decreases k,
{
    let r0 = m.rooms@[0];
    assert(room_fits(r0));
    lemma_center_in_room(r0);
    if k == 0 {
        lemma_room_floor(m, 0, center_of(r0).0, center_of(r0).1);
        lemma_connected_refl(m, center_of(r0));
    } else {
        lemma_centers_connected(m, k - 1);
        let a = m.rooms@[k - 1];
        let b = m.rooms@[k];
        assert(room_fits(a) && room_fits(b));
        assert(m.corridor_carved(a, b));
        let (bx, by) = center_of(b);
        if m.hv_carved(a, b) {
            assert(on_corridor_hv(a, b, bx, by));
            lemma_hv_connected(m, a, b, bx, by);
        } else {
            assert(on_corridor_vh(a, b, bx, by));
            lemma_vh_connected(m, a, b, bx, by);
        }
        lemma_connected_trans(m, center_of(r0), center_of(a), center_of(b));
    }
}

/// On a generated map (what `GameMap::new_map_rooms_and_corridors` ensures)
/// every floor tile is reached from the centre of the first room by a walk
/// over floor tiles along rows and columns.
pub proof fn lemma_generated_map_connected(m: GameMap, t: int)
    requires
        carved_map(m),
        1 <= m.rooms@.len() <= MAX_ROOMS,
        m.corridors_carved(),
        m.floors_explained(),
        0 <= t < m.count(),
        m.tiles@[t] == TileType::Floor,
    ensures
        connected(m, center_of(m.rooms@[0]), (m.x_of(t), m.y_of(t))),
{
    m.lemma_coords(t);
    let x = m.x_of(t);
    let y = m.y_of(t);
    assert(m.floor_explained(t));
    if exists|a: int| 0 <= a < m.rooms@.len() && #[trigger] m.in_room_at(a, x, y) {
        let a = choose|a: int| 0 <= a < m.rooms@.len() && #[trigger] m.in_room_at(a, x, y);
        lemma_centers_connected(m, a);
        lemma_room_connected(m, a, x, y);
        lemma_connected_trans(m, center_of(m.rooms@[0]), center_of(m.rooms@[a]), (x, y));
    } else {
        let k = choose|k: int| 1 <= k < m.rooms@.len() && #[trigger] m.on_link(k, x, y);
        let a = m.rooms@[k - 1];
        let b = m.rooms@[k];
        assert(room_fits(a) && room_fits(b));
        lemma_centers_connected(m, k - 1);
        if on_corridor_hv(a, b, x, y) && m.hv_carved(a, b) {
            lemma_hv_connected(m, a, b, x, y);
        } else {
            lemma_vh_connected(m, a, b, x, y);
        }
        lemma_connected_trans(m, center_of(m.rooms@[0]), center_of(a), (x, y));
    }
}

} // verus!
