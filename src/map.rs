use vstd::prelude::*;
use vstd::arithmetic::div_mod::{lemma_fundamental_div_mod, lemma_fundamental_div_mod_converse};
use crate::components::{Entity, Position};
use crate::rect::{Rect, center_of, rects_overlap};
use crate::rng::{rng_range, rng_roll_dice};
use bracket_lib::prelude::RandomNumberGenerator;

verus! {

pub const MAPWIDTH: i32 = 80;
pub const MAPHEIGHT: i32 = 50;
pub const MAPCOUNT: usize = 4000;
pub const MAX_ROOMS: i32 = 30;
pub const MIN_SIZE: i32 = 3;
pub const MAX_SIZE: i32 = 10;
/// Upper bound on the number of tiles of any map.
pub const MAX_TILES: i32 = 1000000;

#[derive(Clone, Copy, Debug, PartialEq, Eq, Structural)]
pub enum TileType {
    Wall,
    Floor,
}

/// The tile grid with its per-tile indexes, stored row by row.
pub struct GameMap {
    pub tiles: Vec<TileType>,
    pub rooms: Vec<Rect>,
    pub width: i32,
    pub height: i32,
    /// Tiles the player has ever seen.
    pub revealed_tiles: Vec<bool>,
    /// Tiles the player sees this turn.
    pub visible_tiles: Vec<bool>,
    /// Tiles that cannot be entered: walls and tiles held by a blocking entity.
    pub blocked: Vec<bool>,
    /// The entities standing on each tile.
    pub tile_content: Vec<Vec<Entity>>,
}

pub open spec fn min_int(a: int, b: int) -> int {
    if a <= b { a } else { b }
}

pub open spec fn max_int(a: int, b: int) -> int {
    if a >= b { a } else { b }
}

/// `(px, py)` lies on the horizontal run of row `y` between columns `x1` and `x2`.
pub open spec fn on_h_tunnel(x1: int, x2: int, y: int, px: int, py: int) -> bool {
    py == y && min_int(x1, x2) <= px <= max_int(x1, x2)
}

/// `(px, py)` lies on the vertical run of column `x` between rows `y1` and `y2`.
pub open spec fn on_v_tunnel(y1: int, y2: int, x: int, px: int, py: int) -> bool {
    px == x && min_int(y1, y2) <= py <= max_int(y1, y2)
}

/// `(x, y)` lies in the carved interior of `r`.
pub open spec fn in_room(r: Rect, x: int, y: int) -> bool {
    r.x1 < x <= r.x2 && r.y1 < y <= r.y2
}

/// `(x, y)` lies on the corridor from the centre of `a` to the centre of `b`
/// that runs horizontally first.
pub open spec fn on_corridor_hv(a: Rect, b: Rect, x: int, y: int) -> bool {
    on_h_tunnel(center_of(a).0, center_of(b).0, center_of(a).1, x, y) || on_v_tunnel(
        center_of(a).1,
        center_of(b).1,
        center_of(b).0,
        x,
        y,
    )
}

/// `(x, y)` lies on the corridor from the centre of `a` to the centre of `b`
/// that runs vertically first.
pub open spec fn on_corridor_vh(a: Rect, b: Rect, x: int, y: int) -> bool {
    on_v_tunnel(center_of(a).1, center_of(b).1, center_of(a).0, x, y) || on_h_tunnel(
        center_of(a).0,
        center_of(b).0,
        center_of(b).1,
        x,
        y,
    )
}

/// A generated room: its size in range, and inside the standard grid with a
/// border of wall all round.
pub open spec fn room_fits(r: Rect) -> bool {
    &&& 0 <= r.x1
    &&& r.x2 <= MAPWIDTH - 2
    &&& 0 <= r.y1
    &&& r.y2 <= MAPHEIGHT - 2
    &&& MIN_SIZE <= r.x2 - r.x1 < MAX_SIZE
    &&& MIN_SIZE <= r.y2 - r.y1 < MAX_SIZE
}

/// Row-major index of `(x, y)` on a grid `w` wide.
pub open spec fn idx_of(w: int, x: int, y: int) -> int {
    y * w + x
}

pub proof fn lemma_idx_of(w: int, h: int, x: int, y: int)
    requires
        0 <= x < w,
        0 <= y < h,
    ensures
        0 <= idx_of(w, x, y) < w * h,
        idx_of(w, x, y) % w == x,
        idx_of(w, x, y) / w == y,
{
    assert(0 <= y * w + x < w * h) by (nonlinear_arith)
        requires
            0 <= x < w,
            0 <= y < h,
    ;
    lemma_fundamental_div_mod_converse(y * w + x, w, y, x);
}

pub proof fn lemma_coords_of(w: int, h: int, i: int)
    requires
        0 < w,
        0 <= i < w * h,
    ensures
        0 <= i % w < w,
        0 <= i / w < h,
        i == idx_of(w, i % w, i / w),
{
    lemma_fundamental_div_mod(i, w);
    let q = i / w;
    let r = i % w;
    assert(0 <= r < w);
    assert(i == w * q + r);
    assert(w * q == q * w) by (nonlinear_arith);
    assert(0 <= q < h) by (nonlinear_arith)
        requires
            0 < w,
            0 <= r < w,
            i == w * q + r,
            0 <= i < w * h,
    ;
}

/// A carved corridor stays carved while floor stays floor.
pub proof fn lemma_corridor_kept(m1: GameMap, m2: GameMap, a: Rect, b: Rect)
    requires
        m1.width == m2.width,
        m1.height == m2.height,
        forall|i: int|
            0 <= i < m1.count() && #[trigger] m1.tiles@[i] == TileType::Floor ==> m2.tiles@[i]
                == TileType::Floor,
    ensures
        m1.hv_carved(a, b) ==> m2.hv_carved(a, b),
        m1.vh_carved(a, b) ==> m2.vh_carved(a, b),
{
    if m1.hv_carved(a, b) {
        assert forall|i: int|
            0 <= i < m2.count() && #[trigger] on_corridor_hv(a, b, m2.x_of(i), m2.y_of(i))
                implies m2.tiles@[i] == TileType::Floor by {
            assert(on_corridor_hv(a, b, m1.x_of(i), m1.y_of(i)));
        }
    }
    if m1.vh_carved(a, b) {
        assert forall|i: int|
            0 <= i < m2.count() && #[trigger] on_corridor_vh(a, b, m2.x_of(i), m2.y_of(i))
                implies m2.tiles@[i] == TileType::Floor by {
            assert(on_corridor_vh(a, b, m1.x_of(i), m1.y_of(i)));
        }
    }
}

impl GameMap {
    pub open spec fn count(&self) -> int {
        self.width * self.height
    }

    pub open spec fn in_bounds(&self, x: int, y: int) -> bool {
        0 <= x < self.width && 0 <= y < self.height
    }

    pub open spec fn idx(&self, x: int, y: int) -> int {
        idx_of(self.width as int, x, y)
    }

    pub open spec fn x_of(&self, i: int) -> int {
        i % (self.width as int)
    }

    pub open spec fn y_of(&self, i: int) -> int {
        i / (self.width as int)
    }

    /// Sizes agree with the grid, and what is visible has been revealed.
    pub open spec fn wf(&self) -> bool {
        &&& 1 <= self.width
        &&& 1 <= self.height
        &&& self.width * self.height <= MAX_TILES
        &&& self.width <= MAX_TILES
        &&& self.height <= MAX_TILES
        &&& self.tiles@.len() == self.count()
        &&& self.revealed_tiles@.len() == self.count()
        &&& self.visible_tiles@.len() == self.count()
        &&& self.blocked@.len() == self.count()
        &&& self.tile_content@.len() == self.count()
        &&& forall|i: int|
            0 <= i < self.count() && #[trigger] self.visible_tiles@[i] ==> self.revealed_tiles@[i]
    }

    pub open spec fn is_wall(&self, i: int) -> bool {
        self.tiles@[i] == TileType::Wall
    }

    pub proof fn lemma_idx(&self, x: int, y: int)
        requires
            self.wf(),
            self.in_bounds(x, y),
        ensures
            0 <= self.idx(x, y) < self.count(),
            self.x_of(self.idx(x, y)) == x,
            self.y_of(self.idx(x, y)) == y,
    {
        lemma_idx_of(self.width as int, self.height as int, x, y);
    }

    pub proof fn lemma_coords(&self, i: int)
        requires
            self.wf(),
            0 <= i < self.count(),
        ensures
            self.in_bounds(self.x_of(i), self.y_of(i)),
            i == self.idx(self.x_of(i), self.y_of(i)),
    {
        lemma_coords_of(self.width as int, self.height as int, i);
    }

    /// A map of `width` by `height` tiles, all of kind `tile`, with no rooms,
    /// nothing revealed, visible or blocked, and no content.
    pub fn new_filled(width: i32, height: i32, tile: TileType) -> (m: GameMap)
        requires
            1 <= width,
            1 <= height,
            width * height <= MAX_TILES,
        ensures
            m.wf(),
            m.width == width,
            m.height == height,
            m.rooms@.len() == 0,
            forall|i: int| 0 <= i < m.count() ==> #[trigger] m.tiles@[i] == tile,
            forall|i: int| 0 <= i < m.count() ==> !#[trigger] m.revealed_tiles@[i],
            forall|i: int| 0 <= i < m.count() ==> !#[trigger] m.visible_tiles@[i],
            forall|i: int| 0 <= i < m.count() ==> !#[trigger] m.blocked@[i],
            forall|i: int| 0 <= i < m.count() ==> (#[trigger] m.tile_content@[i])@.len() == 0,
    {
        assert(width <= width * height && height <= width * height) by (nonlinear_arith)
            requires
                1 <= width,
                1 <= height,
        ;
        let n: usize = (width * height) as usize;
        let mut tiles: Vec<TileType> = Vec::new();
        let mut revealed: Vec<bool> = Vec::new();
        let mut visible: Vec<bool> = Vec::new();
        let mut blocked: Vec<bool> = Vec::new();
        let mut content: Vec<Vec<Entity>> = Vec::new();
        let mut i: usize = 0;
        while i < n
            invariant
                i <= n,
                tiles@.len() == i,
                revealed@.len() == i,
                visible@.len() == i,
                blocked@.len() == i,
                content@.len() == i,
                forall|j: int| 0 <= j < i ==> #[trigger] tiles@[j] == tile,
                forall|j: int| 0 <= j < i ==> !#[trigger] revealed@[j],
                forall|j: int| 0 <= j < i ==> !#[trigger] visible@[j],
                forall|j: int| 0 <= j < i ==> !#[trigger] blocked@[j],
                forall|j: int| 0 <= j < i ==> (#[trigger] content@[j])@.len() == 0,
            decreases n - i,
        {
            tiles.push(tile);
            revealed.push(false);
            visible.push(false);
            blocked.push(false);
            content.push(Vec::new());
            i = i + 1;
        }
        GameMap {
            tiles,
            rooms: Vec::new(),
            width,
            height,
            revealed_tiles: revealed,
            visible_tiles: visible,
            blocked,
            tile_content: content,
        }
    }

    pub fn xy_idx(&self, x: i32, y: i32) -> (r: usize)
        requires
            self.wf(),
            self.in_bounds(x as int, y as int),
        ensures
            r == self.idx(x as int, y as int),
            r < self.count(),
    {
        proof {
            self.lemma_idx(x as int, y as int);
        }
        (y as usize * self.width as usize) + x as usize
    }

    /// A tile blocks sight exactly when it is a wall.
    pub fn is_opaque(&self, idx: usize) -> (r: bool)
        requires
            self.wf(),
            idx < self.count(),
        ensures
            r == self.is_wall(idx as int),
    {
        self.tiles[idx] == TileType::Wall
    }

    /// Empties the entity list of every tile.
    pub fn clear_content_index(&mut self)
        requires
            old(self).wf(),
        ensures
            final(self).wf(),
            final(self).tiles == old(self).tiles,
            final(self).rooms == old(self).rooms,
            final(self).width == old(self).width,
            final(self).height == old(self).height,
            final(self).revealed_tiles == old(self).revealed_tiles,
            final(self).visible_tiles == old(self).visible_tiles,
            final(self).blocked == old(self).blocked,
            forall|i: int|
                0 <= i < final(self).count() ==> (#[trigger] final(self).tile_content@[i])@.len() == 0,
    {
        let n = self.tile_content.len();
        let mut i: usize = 0;
        while i < n
            invariant
                i <= n,
                n == self.tile_content@.len(),
                self.wf(),
                self.tiles == old(self).tiles,
                self.rooms == old(self).rooms,
                self.width == old(self).width,
                self.height == old(self).height,
                self.revealed_tiles == old(self).revealed_tiles,
                self.visible_tiles == old(self).visible_tiles,
                self.blocked == old(self).blocked,
                forall|j: int| 0 <= j < i ==> (#[trigger] self.tile_content@[j])@.len() == 0,
            decreases n - i,
        {
            self.tile_content[i].clear();
            i = i + 1;
        }
    }

    /// Marks exactly the wall tiles as blocked.
    pub fn populate_blocked(&mut self)
        requires
            old(self).wf(),
        ensures
            final(self).wf(),
            final(self).tiles == old(self).tiles,
            final(self).rooms == old(self).rooms,
            final(self).width == old(self).width,
            final(self).height == old(self).height,
            final(self).revealed_tiles == old(self).revealed_tiles,
            final(self).visible_tiles == old(self).visible_tiles,
            final(self).tile_content == old(self).tile_content,
            forall|i: int|
                0 <= i < final(self).count() ==> #[trigger] final(self).blocked@[i] == final(self).is_wall(i),
    {
        let n = self.tiles.len();
        let mut i: usize = 0;
        while i < n
            invariant
                i <= n,
                n == self.tiles@.len(),
                self.wf(),
                self.tiles == old(self).tiles,
                self.rooms == old(self).rooms,
                self.width == old(self).width,
                self.height == old(self).height,
                self.revealed_tiles == old(self).revealed_tiles,
                self.visible_tiles == old(self).visible_tiles,
                self.tile_content == old(self).tile_content,
                forall|j: int| 0 <= j < i ==> #[trigger] self.blocked@[j] == self.is_wall(j),
            decreases n - i,
        {
            let wall = self.tiles[i] == TileType::Wall;
            self.blocked[i] = wall;
            i = i + 1;
        }
    }

    /// Everything but the tiles is the same in both maps.
    pub open spec fn same_but_tiles(&self, other: &GameMap) -> bool {
        &&& self.rooms == other.rooms
        &&& self.width == other.width
        &&& self.height == other.height
        &&& self.revealed_tiles == other.revealed_tiles
        &&& self.visible_tiles == other.visible_tiles
        &&& self.blocked == other.blocked
        &&& self.tile_content == other.tile_content
    }

    /// Carves row `y` from `x1` to `x2`, both included, to floor; a tile
    /// outside the grid is skipped.
    pub fn apply_horizontal_tunnel(&mut self, x1: i32, x2: i32, y: i32)
        requires
            old(self).wf(),
        ensures
            final(self).wf(),
            final(self).same_but_tiles(old(self)),
            forall|i: int|
                0 <= i < final(self).count() ==> #[trigger] final(self).tiles@[i] == if on_h_tunnel(
                    x1 as int,
                    x2 as int,
                    y as int,
                    final(self).x_of(i),
                    final(self).y_of(i),
                ) {
                    TileType::Floor
                } else {
                    old(self).tiles@[i]
                },
    {
        let lo: i64 = if x1 <= x2 { x1 as i64 } else { x2 as i64 };
        let hi: i64 = if x1 <= x2 { x2 as i64 } else { x1 as i64 };
        let mut x: i64 = lo;
        while x <= hi
            invariant
                lo == min_int(x1 as int, x2 as int),
                hi == max_int(x1 as int, x2 as int),
                lo <= x <= hi + 1,
                self.wf(),
                self.same_but_tiles(old(self)),
                forall|i: int|
                    0 <= i < self.count() ==> #[trigger] self.tiles@[i] == if self.y_of(i) == y
                        && lo <= self.x_of(i) < x {
                        TileType::Floor
                    } else {
                        old(self).tiles@[i]
                    },
            decreases hi + 1 - x,
        {
            if 0 <= x && x < self.width as i64 && 0 <= y && y < self.height {
                let idx = self.xy_idx(x as i32, y);
                let ghost before = self.tiles@;
                self.tiles[idx] = TileType::Floor;
                proof {
                    self.lemma_idx(x as int, y as int);
                    assert forall|i: int| 0 <= i < self.count() implies #[trigger] self.tiles@[i]
                        == if self.y_of(i) == y && lo <= self.x_of(i) < x + 1 {
                        TileType::Floor
                    } else {
                        old(self).tiles@[i]
                    } by {
                        self.lemma_coords(i);
                        if i != idx {
                            assert(before[i] == self.tiles@[i]);
                        }
                    }
                }
            } else {
                proof {
                    assert forall|i: int| 0 <= i < self.count() implies #[trigger] self.tiles@[i]
                        == if self.y_of(i) == y && lo <= self.x_of(i) < x + 1 {
                        TileType::Floor
                    } else {
                        old(self).tiles@[i]
                    } by {
                        self.lemma_coords(i);
                    }
                }
            }
            x = x + 1;
        }
    }

    /// Carves column `x` from `y1` to `y2`, both included, to floor; a tile
    /// outside the grid is skipped.
    pub fn apply_vertical_tunnel(&mut self, y1: i32, y2: i32, x: i32)
        requires
            old(self).wf(),
        ensures
            final(self).wf(),
            final(self).same_but_tiles(old(self)),
            forall|i: int|
                0 <= i < final(self).count() ==> #[trigger] final(self).tiles@[i] == if on_v_tunnel(
                    y1 as int,
                    y2 as int,
                    x as int,
                    final(self).x_of(i),
                    final(self).y_of(i),
                ) {
                    TileType::Floor
                } else {
                    old(self).tiles@[i]
                },
    {
        let lo: i64 = if y1 <= y2 { y1 as i64 } else { y2 as i64 };
        let hi: i64 = if y1 <= y2 { y2 as i64 } else { y1 as i64 };
        let mut y: i64 = lo;
        while y <= hi
            invariant
                lo == min_int(y1 as int, y2 as int),
                hi == max_int(y1 as int, y2 as int),
                lo <= y <= hi + 1,
                self.wf(),
                self.same_but_tiles(old(self)),
                forall|i: int|
                    0 <= i < self.count() ==> #[trigger] self.tiles@[i] == if self.x_of(i) == x
                        && lo <= self.y_of(i) < y {
                        TileType::Floor
                    } else {
                        old(self).tiles@[i]
                    },
            decreases hi + 1 - y,
        {
            if 0 <= x && x < self.width && 0 <= y && y < self.height as i64 {
                let idx = self.xy_idx(x, y as i32);
                let ghost before = self.tiles@;
                self.tiles[idx] = TileType::Floor;
                proof {
                    self.lemma_idx(x as int, y as int);
                    assert forall|i: int| 0 <= i < self.count() implies #[trigger] self.tiles@[i]
                        == if self.x_of(i) == x && lo <= self.y_of(i) < y + 1 {
                        TileType::Floor
                    } else {
                        old(self).tiles@[i]
                    } by {
                        self.lemma_coords(i);
                        if i != idx {
                            assert(before[i] == self.tiles@[i]);
                        }
                    }
                }
            } else {
                proof {
                    assert forall|i: int| 0 <= i < self.count() implies #[trigger] self.tiles@[i]
                        == if self.x_of(i) == x && lo <= self.y_of(i) < y + 1 {
                        TileType::Floor
                    } else {
                        old(self).tiles@[i]
                    } by {
                        self.lemma_coords(i);
                    }
                }
            }
            y = y + 1;
        }
    }

    /// Carves the interior of `room` to floor.
    pub fn apply_room_to_map(&mut self, room: &Rect)
        requires
            old(self).wf(),
            -1 <= room.x1,
            room.x2 < old(self).width,
            -1 <= room.y1,
            room.y2 < old(self).height,
        ensures
            final(self).wf(),
            final(self).same_but_tiles(old(self)),
            forall|i: int|
                0 <= i < final(self).count() ==> #[trigger] final(self).tiles@[i] == if in_room(
                    *room,
                    final(self).x_of(i),
                    final(self).y_of(i),
                ) {
                    TileType::Floor
                } else {
                    old(self).tiles@[i]
                },
    {
        let mut y: i64 = room.y1 as i64 + 1;
        while y <= room.y2 as i64
            invariant
                room.y1 + 1 <= y,
                y <= room.y2 + 1 || y == room.y1 + 1,
                -1 <= room.x1,
                room.x2 < self.width,
                -1 <= room.y1,
                room.y2 < self.height,
                self.wf(),
                self.same_but_tiles(old(self)),
                forall|i: int|
                    0 <= i < self.count() ==> #[trigger] self.tiles@[i] == if in_room(
                        *room,
                        self.x_of(i),
                        self.y_of(i),
                    ) && self.y_of(i) < y {
                        TileType::Floor
                    } else {
                        old(self).tiles@[i]
                    },
            decreases room.y2 + 1 - y,
        {
            let mut x: i64 = room.x1 as i64 + 1;
            while x <= room.x2 as i64
                invariant
                    room.x1 + 1 <= x,
                    x <= room.x2 + 1 || x == room.x1 + 1,
                    room.y1 + 1 <= y <= room.y2,
                    -1 <= room.x1,
                    room.x2 < self.width,
                    -1 <= room.y1,
                    room.y2 < self.height,
                    self.wf(),
                    self.same_but_tiles(old(self)),
                    forall|i: int|
                        0 <= i < self.count() ==> #[trigger] self.tiles@[i] == if in_room(
                            *room,
                            self.x_of(i),
                            self.y_of(i),
                        ) && (self.y_of(i) < y || (self.y_of(i) == y && self.x_of(i) < x)) {
                            TileType::Floor
                        } else {
                            old(self).tiles@[i]
                        },
                decreases room.x2 + 1 - x,
            {
                let idx = self.xy_idx(x as i32, y as i32);
                let ghost before = self.tiles@;
                self.tiles[idx] = TileType::Floor;
                proof {
                    self.lemma_idx(x as int, y as int);
                    assert forall|i: int| 0 <= i < self.count() implies #[trigger] self.tiles@[i]
                        == if in_room(*room, self.x_of(i), self.y_of(i)) && (self.y_of(i) < y || (
                        self.y_of(i) == y && self.x_of(i) < x + 1)) {
                        TileType::Floor
                    } else {
                        old(self).tiles@[i]
                    } by {
                        self.lemma_coords(i);
                        if i != idx {
                            assert(before[i] == self.tiles@[i]);
                        }
                    }
                }
                x = x + 1;
            }
            proof {
                assert forall|i: int| 0 <= i < self.count() implies #[trigger] self.tiles@[i]
                    == if in_room(*room, self.x_of(i), self.y_of(i)) && self.y_of(i) < y + 1 {
                    TileType::Floor
                } else {
                    old(self).tiles@[i]
                } by {
                    self.lemma_coords(i);
                }
            }
            y = y + 1;
        }
        proof {
            assert forall|i: int| 0 <= i < self.count() implies #[trigger] self.tiles@[i]
                == if in_room(*room, self.x_of(i), self.y_of(i)) {
                TileType::Floor
            } else {
                old(self).tiles@[i]
            } by {
                self.lemma_coords(i);
            }
        }
    }

    /// No two recorded rooms overlap.
    pub open spec fn rooms_apart(&self) -> bool {
        forall|a: int, b: int|
            0 <= a < b < self.rooms@.len() ==> !rects_overlap(
                #[trigger] self.rooms@[a],
                #[trigger] self.rooms@[b],
            )
    }

    /// Every recorded room fits the standard grid.
    pub open spec fn rooms_fit(&self) -> bool {
        forall|a: int| 0 <= a < self.rooms@.len() ==> room_fits(#[trigger] self.rooms@[a])
    }

    /// The interior of every recorded room is floor.
    pub open spec fn rooms_carved(&self) -> bool {
        forall|a: int, i: int|
            0 <= a < self.rooms@.len() && 0 <= i < self.count() && #[trigger] in_room(
                self.rooms@[a],
                self.x_of(i),
                self.y_of(i),
            ) ==> self.tiles@[i] == TileType::Floor
    }

    /// The corridor from `a` to `b` that runs horizontally first is floor throughout.
    pub open spec fn hv_carved(&self, a: Rect, b: Rect) -> bool {
        forall|i: int|
            0 <= i < self.count() && #[trigger] on_corridor_hv(a, b, self.x_of(i), self.y_of(i))
                ==> self.tiles@[i] == TileType::Floor
    }

    /// The corridor from `a` to `b` that runs vertically first is floor throughout.
    pub open spec fn vh_carved(&self, a: Rect, b: Rect) -> bool {
        forall|i: int|
            0 <= i < self.count() && #[trigger] on_corridor_vh(a, b, self.x_of(i), self.y_of(i))
                ==> self.tiles@[i] == TileType::Floor
    }

    /// One of the two L-shaped corridors between the centres of `a` and `b`
    /// is floor throughout.
    pub open spec fn corridor_carved(&self, a: Rect, b: Rect) -> bool {
        self.hv_carved(a, b) || self.vh_carved(a, b)
    }

    /// Each room after the first is joined to the one before it.
    pub open spec fn corridors_carved(&self) -> bool {
        forall|k: int|
            1 <= k < self.rooms@.len() ==> self.corridor_carved(
                #[trigger] self.rooms@[k - 1],
                self.rooms@[k],
            )
    }

    /// `(x, y)` lies in the interior of room `a`.
    pub open spec fn in_room_at(&self, a: int, x: int, y: int) -> bool {
        in_room(self.rooms@[a], x, y)
    }

    /// `(x, y)` lies on a corridor shape between room `k - 1` and room `k`
    /// that is floor throughout.
    pub open spec fn on_link(&self, k: int, x: int, y: int) -> bool {
        ||| on_corridor_hv(self.rooms@[k - 1], self.rooms@[k], x, y) && self.hv_carved(
            self.rooms@[k - 1],
            self.rooms@[k],
        )
        ||| on_corridor_vh(self.rooms@[k - 1], self.rooms@[k], x, y) && self.vh_carved(
            self.rooms@[k - 1],
            self.rooms@[k],
        )
    }

    /// Tile `i` lies in a room, or on a corridor between two consecutive rooms.
    pub open spec fn floor_explained(&self, i: int) -> bool {
        ||| exists|a: int|
            0 <= a < self.rooms@.len() && #[trigger] self.in_room_at(a, self.x_of(i), self.y_of(i))
        ||| exists|k: int|
            1 <= k < self.rooms@.len() && #[trigger] self.on_link(k, self.x_of(i), self.y_of(i))
    }

    /// Every floor tile is a room's or a corridor's.
    pub open spec fn floors_explained(&self) -> bool {
        forall|i: int|
            0 <= i < self.count() && #[trigger] self.tiles@[i] == TileType::Floor
                ==> self.floor_explained(i)
    }

    /// Nothing revealed, visible, blocked or indexed yet.
    pub open spec fn fresh(&self) -> bool {
        &&& forall|i: int| 0 <= i < self.count() ==> !#[trigger] self.revealed_tiles@[i]
        &&& forall|i: int| 0 <= i < self.count() ==> !#[trigger] self.visible_tiles@[i]
        &&& forall|i: int| 0 <= i < self.count() ==> !#[trigger] self.blocked@[i]
        &&& forall|i: int| 0 <= i < self.count() ==> (#[trigger] self.tile_content@[i])@.len() == 0
    }

    /// No room recorded so far overlaps `r`.
    pub fn room_is_free(&self, r: &Rect) -> (ok: bool)
        ensures
            ok == forall|j: int| 0 <= j < self.rooms@.len() ==> !rects_overlap(*r, #[trigger] self.rooms@[j]),
    {
        let mut ok = true;
        let mut j: usize = 0;
        while j < self.rooms.len()
            invariant
                j <= self.rooms@.len(),
                ok == forall|jj: int| 0 <= jj < j ==> !rects_overlap(*r, #[trigger] self.rooms@[jj]),
            decreases self.rooms@.len() - j,
        {
            if r.intersect(&self.rooms[j]) {
                ok = false;
            }
            j = j + 1;
        }
        ok
    }

    /// Accepts `new_room`, which overlaps no recorded room: carves its
    /// interior, joins its centre to the centre of the room recorded last (if
    /// any) by the corridor running horizontally first when
    /// `horizontal_first`, vertically first otherwise, and records it.
    pub fn place_room(&mut self, new_room: Rect, horizontal_first: bool)
        requires
            old(self).wf(),
            old(self).width == MAPWIDTH,
            old(self).height == MAPHEIGHT,
            old(self).rooms@.len() < MAX_ROOMS,
            room_fits(new_room),
            forall|j: int| 0 <= j < old(self).rooms@.len() ==> !rects_overlap(new_room, #[trigger] old(self).rooms@[j]),
            old(self).rooms_apart(),
            old(self).rooms_fit(),
            old(self).rooms_carved(),
            old(self).corridors_carved(),
            old(self).floors_explained(),
            old(self).fresh(),
        ensures
            final(self).wf(),
            final(self).width == MAPWIDTH,
            final(self).height == MAPHEIGHT,
            final(self).rooms@ == old(self).rooms@.push(new_room),
            final(self).rooms_apart(),
            final(self).rooms_fit(),
            final(self).rooms_carved(),
            final(self).corridors_carved(),
            final(self).floors_explained(),
            final(self).fresh(),
            forall|i: int|
                0 <= i < final(self).count() ==> #[trigger] final(self).tiles@[i] == if in_room(
                    new_room,
                    final(self).x_of(i),
                    final(self).y_of(i),
                ) || (old(self).rooms@.len() > 0 && if horizontal_first {
                    on_corridor_hv(old(self).rooms@.last(), new_room, final(self).x_of(i), final(self).y_of(i))
                } else {
                    on_corridor_vh(old(self).rooms@.last(), new_room, final(self).x_of(i), final(self).y_of(i))
                }) {
                    TileType::Floor
                } else {
                    old(self).tiles@[i]
                },
    {
            let ghost before = *self;
            self.apply_room_to_map(&new_room);
            let ghost with_room = *self;
            if self.rooms.len() > 0 {
                let ghost prev = self.rooms@[self.rooms@.len() - 1];
                let (new_x, new_y) = new_room.center();
                let (prev_x, prev_y) = self.rooms[self.rooms.len() - 1].center();
                if horizontal_first {
                    self.apply_horizontal_tunnel(prev_x, new_x, prev_y);
                    self.apply_vertical_tunnel(prev_y, new_y, new_x);
                    assert forall|i: int| 0 <= i < self.count() implies #[trigger] self.tiles@[i]
                        == if on_corridor_hv(prev, new_room, self.x_of(i), self.y_of(i)) {
                        TileType::Floor
                    } else {
                        with_room.tiles@[i]
                    } by {}
                } else {
                    self.apply_vertical_tunnel(prev_y, new_y, prev_x);
                    self.apply_horizontal_tunnel(prev_x, new_x, new_y);
                    assert forall|i: int| 0 <= i < self.count() implies #[trigger] self.tiles@[i]
                        == if on_corridor_vh(prev, new_room, self.x_of(i), self.y_of(i)) {
                        TileType::Floor
                    } else {
                        with_room.tiles@[i]
                    } by {}
                }
            }
            self.rooms.push(new_room);
            proof {
                let r0 = before.rooms@;
                let len0 = r0.len();
                assert(self.rooms@ == r0.push(new_room));
                assert forall|i: int|
                    0 <= i < self.count() && #[trigger] with_room.tiles@[i] == TileType::Floor
                        implies self.tiles@[i] == TileType::Floor by {}
                assert forall|i: int|
                    0 <= i < self.count() && #[trigger] before.tiles@[i] == TileType::Floor
                        implies self.tiles@[i] == TileType::Floor by {
                    assert(with_room.tiles@[i] == TileType::Floor);
                }
                assert forall|a: int, i: int|
                    0 <= a < self.rooms@.len() && 0 <= i < self.count() && #[trigger] in_room(
                        self.rooms@[a],
                        self.x_of(i),
                        self.y_of(i),
                    ) implies self.tiles@[i] == TileType::Floor by {
                    if a < len0 {
                        assert(self.rooms@[a] == r0[a]);
                        assert(in_room(r0[a], before.x_of(i), before.y_of(i)));
                    } else {
                        assert(with_room.tiles@[i] == TileType::Floor);
                    }
                }
                assert forall|k: int| 1 <= k < self.rooms@.len() implies self.corridor_carved(
                    #[trigger] self.rooms@[k - 1],
                    self.rooms@[k],
                ) by {
                    if k < len0 {
                        assert(self.rooms@[k - 1] == r0[k - 1]);
                        assert(self.rooms@[k] == r0[k]);
                        assert(before.corridor_carved(r0[k - 1], r0[k]));
                        lemma_corridor_kept(before, *self, r0[k - 1], r0[k]);
                    } else {
                        assert(self.rooms@[k - 1] == r0[len0 - 1]);
                        assert(self.rooms@[k] == new_room);
                    }
                }
                assert forall|i: int|
                    0 <= i < self.count() && #[trigger] self.tiles@[i] == TileType::Floor
                        implies self.floor_explained(i) by {
                    let x = self.x_of(i);
                    let y = self.y_of(i);
                    assert(before.x_of(i) == x && before.y_of(i) == y);
                    if len0 > 0 && ((horizontal_first && on_corridor_hv(r0[len0 - 1], new_room, x, y)) || (
                    !horizontal_first && on_corridor_vh(r0[len0 - 1], new_room, x, y))) {
                        assert(self.rooms@[len0 as int - 1] == r0[len0 - 1]);
                        assert(self.rooms@[len0 as int] == new_room);
                        let k = len0 as int;
                        assert(1 <= k < self.rooms@.len());
                        assert(self.corridor_carved(self.rooms@[k - 1], self.rooms@[k]));
                        if horizontal_first {
                            assert(self.hv_carved(self.rooms@[k - 1], self.rooms@[k]));
                        } else {
                            assert(self.vh_carved(self.rooms@[k - 1], self.rooms@[k]));
                        }
                        assert(self.on_link(k, self.x_of(i), self.y_of(i)));
                        assert(self.floor_explained(i));
                    } else if in_room(new_room, x, y) {
                        assert(self.in_room_at(len0 as int, self.x_of(i), self.y_of(i)));
                        assert(self.floor_explained(i));
                    } else {
                        assert(with_room.tiles@[i] == TileType::Floor);
                        assert(before.tiles@[i] == TileType::Floor);
                        assert(before.floor_explained(i));
                        if exists|a: int|
                            0 <= a < before.rooms@.len() && #[trigger] before.in_room_at(
                                a,
                                before.x_of(i),
                                before.y_of(i),
                            ) {
                            let a = choose|a: int|
                                0 <= a < before.rooms@.len() && #[trigger] before.in_room_at(
                                    a,
                                    before.x_of(i),
                                    before.y_of(i),
                                );
                            assert(self.rooms@[a] == r0[a]);
                            assert(self.in_room_at(a, self.x_of(i), self.y_of(i)));
                            assert(self.floor_explained(i));
                        } else {
                            let k = choose|k: int|
                                1 <= k < before.rooms@.len() && #[trigger] before.on_link(
                                    k,
                                    before.x_of(i),
                                    before.y_of(i),
                                );
                            assert(self.rooms@[k - 1] == r0[k - 1]);
                            assert(self.rooms@[k] == r0[k]);
                            lemma_corridor_kept(before, *self, r0[k - 1], r0[k]);
                            assert(self.on_link(k, self.x_of(i), self.y_of(i)));
                            assert(self.floor_explained(i));
                        }
                    }
                }
                assert forall|a: int, b: int| 0 <= a < b < self.rooms@.len() implies !rects_overlap(
                    #[trigger] self.rooms@[a],
                    #[trigger] self.rooms@[b],
                ) by {
                    if b < len0 {
                        assert(self.rooms@[a] == r0[a]);
                        assert(self.rooms@[b] == r0[b]);
                    } else {
                        assert(self.rooms@[a] == r0[a]);
                        assert(!rects_overlap(new_room, r0[a]));
                    }
                }
            }
    }

    /// A standard-size map of rooms joined by corridors. Up to `MAX_ROOMS`
    /// rooms are proposed at random; one that overlaps no room already placed
    /// is accepted by `place_room`, with a corridor orientation drawn at
    /// random, and one that overlaps is dropped.
    pub fn new_map_rooms_and_corridors(rng: &mut RandomNumberGenerator) -> (m: GameMap)
        ensures
            m.wf(),
            m.width == MAPWIDTH,
            m.height == MAPHEIGHT,
            1 <= m.rooms@.len() <= MAX_ROOMS,
            m.rooms_apart(),
            m.rooms_fit(),
            m.rooms_carved(),
            m.corridors_carved(),
            m.floors_explained(),
            m.fresh(),
    {
        let mut map = GameMap::new_filled(MAPWIDTH, MAPHEIGHT, TileType::Wall);
        let mut n: i32 = 0;
        while n < MAX_ROOMS
            invariant
                0 <= n <= MAX_ROOMS,
                map.wf(),
                map.width == MAPWIDTH,
                map.height == MAPHEIGHT,
                map.rooms@.len() <= n,
                n > 0 ==> map.rooms@.len() >= 1,
                map.rooms_apart(),
                map.rooms_fit(),
                map.rooms_carved(),
                map.corridors_carved(),
                map.floors_explained(),
                map.fresh(),
            decreases MAX_ROOMS - n,
        {
            let room_width = rng_range(rng, MIN_SIZE, MAX_SIZE);
            let room_height = rng_range(rng, MIN_SIZE, MAX_SIZE);
            let x = rng_roll_dice(rng, 1, MAPWIDTH - room_width - 1) - 1;
            let y = rng_roll_dice(rng, 1, MAPHEIGHT - room_height - 1) - 1;
            let new_room = Rect::new(x, y, room_width, room_height);
            assert(room_fits(new_room));

            if map.room_is_free(&new_room) {
                let horizontal_first = if map.rooms.len() > 0 {
                    rng_range(rng, 0, 2) == 1
                } else {
                    true
                };
                map.place_room(new_room, horizontal_first);
            }
            n = n + 1;
        }
        map
    }

    /// The grid coordinate of tile `i`.
    pub open spec fn pos_of(&self, i: int) -> Position {
        Position { x: self.x_of(i) as i32, y: self.y_of(i) as i32 }
    }

    /// Everything but the two visibility layers is the same in both maps.
    pub open spec fn same_but_sight(&self, other: &GameMap) -> bool {
        &&& self.tiles == other.tiles
        &&& self.rooms == other.rooms
        &&& self.width == other.width
        &&& self.height == other.height
        &&& self.blocked == other.blocked
        &&& self.tile_content == other.tile_content
    }

    /// Forgets what the player saw this turn; what was revealed stays.
    pub fn clear_visible(&mut self)
        requires
            old(self).wf(),
        ensures
            final(self).wf(),
            final(self).same_but_sight(old(self)),
            final(self).revealed_tiles == old(self).revealed_tiles,
            forall|i: int| 0 <= i < final(self).count() ==> !#[trigger] final(self).visible_tiles@[i],
    {
        let n = self.visible_tiles.len();
        let mut i: usize = 0;
        while i < n
            invariant
                i <= n,
                n == self.count(),
                self.wf(),
                self.same_but_sight(old(self)),
                self.revealed_tiles == old(self).revealed_tiles,
                forall|j: int| 0 <= j < i ==> !#[trigger] self.visible_tiles@[j],
            decreases n - i,
        {
            self.visible_tiles.set(i, false);
            i = i + 1;
        }
    }

    /// Marks every tile of `seen` as revealed and visible.
    pub fn reveal_seen(&mut self, seen: &Vec<Position>)
        requires
            old(self).wf(),
            forall|k: int|
                0 <= k < seen@.len() ==> old(self).in_bounds(
                    #[trigger] seen@[k].x as int,
                    seen@[k].y as int,
                ),
        ensures
            final(self).wf(),
            final(self).same_but_sight(old(self)),
            forall|i: int|
                0 <= i < final(self).count() ==> (#[trigger] final(self).visible_tiles@[i] <==> (
                old(self).visible_tiles@[i] || seen@.contains(final(self).pos_of(i)))),
            forall|i: int|
                0 <= i < final(self).count() ==> (#[trigger] final(self).revealed_tiles@[i] <==> (
                old(self).revealed_tiles@[i] || seen@.contains(final(self).pos_of(i)))),
    {
        let mut k: usize = 0;
        while k < seen.len()
            invariant
                k <= seen@.len(),
                self.wf(),
                self.same_but_sight(old(self)),
                forall|j: int|
                    0 <= j < seen@.len() ==> self.in_bounds(#[trigger] seen@[j].x as int, seen@[j].y as int),
                forall|i: int|
                    0 <= i < self.count() ==> (#[trigger] self.visible_tiles@[i] <==> (
                    old(self).visible_tiles@[i] || seen@.subrange(0, k as int).contains(self.pos_of(i)))),
                forall|i: int|
                    0 <= i < self.count() ==> (#[trigger] self.revealed_tiles@[i] <==> (
                    old(self).revealed_tiles@[i] || seen@.subrange(0, k as int).contains(self.pos_of(i)))),
            decreases seen@.len() - k,
        {
            let p = seen[k];
            let idx = self.xy_idx(p.x, p.y);
            let ghost before = *self;
            self.revealed_tiles.set(idx, true);
            self.visible_tiles.set(idx, true);
            proof {
                self.lemma_idx(p.x as int, p.y as int);
                assert(self.pos_of(idx as int) == p);
                assert forall|i: int| 0 <= i < self.count() implies (#[trigger] self.visible_tiles@[i] <==> (
                    old(self).visible_tiles@[i] || seen@.subrange(0, k + 1).contains(self.pos_of(i)))) by {
                    self.lemma_coords(i);
                    let s0 = seen@.subrange(0, k as int);
                    let s1 = seen@.subrange(0, k + 1);
                    assert(s1 =~= s0.push(p));
                    vstd::seq_lib::lemma_seq_contains_after_push(s0, p, self.pos_of(i));
                    if i != idx {
                        assert(self.pos_of(i) != p);
                        assert(self.visible_tiles@[i] == before.visible_tiles@[i]);
                    }
                }
                assert forall|i: int| 0 <= i < self.count() implies (#[trigger] self.revealed_tiles@[i] <==> (
                    old(self).revealed_tiles@[i] || seen@.subrange(0, k + 1).contains(self.pos_of(i)))) by {
                    self.lemma_coords(i);
                    let s0 = seen@.subrange(0, k as int);
                    let s1 = seen@.subrange(0, k + 1);
                    assert(s1 =~= s0.push(p));
                    vstd::seq_lib::lemma_seq_contains_after_push(s0, p, self.pos_of(i));
                    if i != idx {
                        assert(self.pos_of(i) != p);
                        assert(self.revealed_tiles@[i] == before.revealed_tiles@[i]);
                    }
                }
                assert forall|i: int|
                    0 <= i < self.count() && #[trigger] self.visible_tiles@[i] implies self.revealed_tiles@[i] by {
                    if i != idx {
                        assert(before.visible_tiles@[i]);
                    }
                }
            }
            k = k + 1;
        }
        assert(seen@.subrange(0, seen@.len() as int) =~= seen@);
    }

    /// Tile `i` lies on the outer frame of the grid.
    pub open spec fn on_frame(&self, i: int) -> bool {
        self.x_of(i) == 0 || self.x_of(i) == self.width - 1 || self.y_of(i) == 0 || self.y_of(i)
            == self.height - 1
    }

    /// Tile `i` is one of the drawn `spots`.
    pub open spec fn is_spot(&self, spots: Seq<(i32, i32)>, i: int) -> bool {
        exists|k: int| 0 <= k < spots.len() && self.idx(spots[k].0 as int, spots[k].1 as int) == i
    }

    /// The test layout for the drawn `spots`: a tile is a wall exactly when it
    /// lies on the frame, or is a drawn spot other than the tile (40, 25).
    pub open spec fn test_layout(&self, spots: Seq<(i32, i32)>, tiles: Seq<TileType>) -> bool {
        &&& tiles.len() == self.count()
        &&& forall|i: int|
            0 <= i < self.count() ==> (#[trigger] tiles[i] == TileType::Wall <==> (self.on_frame(i) || (i
                != self.idx(40, 25) && self.is_spot(spots, i))))
    }

    /// Lays out floor with a wall frame and a wall on each of `spots`, except
    /// on the tile (40, 25).
    pub fn layout_with_spots(&self, spots: &Vec<(i32, i32)>) -> (tiles: Vec<TileType>)
        requires
            self.wf(),
            self.width == MAPWIDTH,
            self.height == MAPHEIGHT,
            forall|k: int|
                0 <= k < spots@.len() ==> 0 <= (#[trigger] spots@[k]).0 < MAPWIDTH && 0 <= spots@[k].1 < MAPHEIGHT,
        ensures
            self.test_layout(spots@, tiles@),
    {
        let n = self.tiles.len();
        let mut map: Vec<TileType> = Vec::new();
        let mut i: usize = 0;
        while i < n
            invariant
                i <= n,
                map@.len() == i,
                forall|j: int| 0 <= j < i ==> #[trigger] map@[j] == TileType::Floor,
            decreases n - i,
        {
            map.push(TileType::Floor);
            i = i + 1;
        }
        let keep = self.xy_idx(40, 25);
        proof {
            self.lemma_idx(40, 25);
        }
        let mut x: i32 = 0;
        while x < 80
            invariant
                self.wf(),
                self.width == MAPWIDTH,
                self.height == MAPHEIGHT,
                0 <= x <= 80,
                map@.len() == self.count(),
                forall|j: int|
                    0 <= j < self.count() ==> (#[trigger] map@[j] == TileType::Wall <==> ((self.y_of(j) == 0
                        || self.y_of(j) == 49) && self.x_of(j) < x)),
            decreases 80 - x,
        {
            let top = self.xy_idx(x, 0);
            let bottom = self.xy_idx(x, 49);
            map.set(top, TileType::Wall);
            map.set(bottom, TileType::Wall);
            proof {
                self.lemma_idx(x as int, 0);
                self.lemma_idx(x as int, 49);
                assert forall|j: int| 0 <= j < self.count() implies (#[trigger] map@[j] == TileType::Wall <==> ((
                self.y_of(j) == 0 || self.y_of(j) == 49) && self.x_of(j) < x + 1)) by {
                    self.lemma_coords(j);
                }
            }
            x = x + 1;
        }
        let mut y: i32 = 0;
        while y < 50
            invariant
                self.wf(),
                self.width == MAPWIDTH,
                self.height == MAPHEIGHT,
                0 <= y <= 50,
                map@.len() == self.count(),
                forall|j: int|
                    0 <= j < self.count() ==> (#[trigger] map@[j] == TileType::Wall <==> (self.y_of(j) == 0
                        || self.y_of(j) == 49 || ((self.x_of(j) == 0 || self.x_of(j) == 79) && self.y_of(j) < y))),
            decreases 50 - y,
        {
            let left = self.xy_idx(0, y);
            let right = self.xy_idx(79, y);
            map.set(left, TileType::Wall);
            map.set(right, TileType::Wall);
            proof {
                self.lemma_idx(0, y as int);
                self.lemma_idx(79, y as int);
                assert forall|j: int| 0 <= j < self.count() implies (#[trigger] map@[j] == TileType::Wall <==> (
                self.y_of(j) == 0 || self.y_of(j) == 49 || ((self.x_of(j) == 0 || self.x_of(j) == 79)
                    && self.y_of(j) < y + 1))) by {
                    self.lemma_coords(j);
                }
            }
            y = y + 1;
        }
        let mut k: usize = 0;
        while k < spots.len()
            invariant
                self.wf(),
                self.width == MAPWIDTH,
                self.height == MAPHEIGHT,
                k <= spots@.len(),
                keep == self.idx(40, 25),
                map@.len() == self.count(),
                forall|q: int|
                    0 <= q < spots@.len() ==> 0 <= (#[trigger] spots@[q]).0 < MAPWIDTH && 0 <= spots@[q].1 < MAPHEIGHT,
                forall|j: int|
                    0 <= j < self.count() ==> (#[trigger] map@[j] == TileType::Wall <==> (self.on_frame(j) || (j
                        != keep && self.is_spot(spots@.subrange(0, k as int), j)))),
            decreases spots@.len() - k,
        {
            let (sx, sy) = spots[k];
            let idx = self.xy_idx(sx, sy);
            let ghost before = map@;
            if idx != keep {
                map.set(idx, TileType::Wall);
            }
            proof {
                let s0 = spots@.subrange(0, k as int);
                let s1 = spots@.subrange(0, k + 1);
                assert forall|j: int| 0 <= j < self.count() implies (#[trigger] map@[j] == TileType::Wall <==> (
                self.on_frame(j) || (j != keep && self.is_spot(s1, j)))) by {
                    if self.is_spot(s1, j) && !self.is_spot(s0, j) {
                        let q = choose|q: int| 0 <= q < s1.len() && self.idx(s1[q].0 as int, s1[q].1 as int) == j;
                        assert(q == k);
                    }
                    if self.is_spot(s0, j) {
                        let q = choose|q: int| 0 <= q < s0.len() && self.idx(s0[q].0 as int, s0[q].1 as int) == j;
                        assert(s1[q] == s0[q]);
                    }
                    if j == idx {
                        assert(s1[k as int] == (sx, sy));
                    } else {
                        assert(map@[j] == before[j]);
                    }
                }
            }
            k = k + 1;
        }
        assert(spots@.subrange(0, spots@.len() as int) =~= spots@);
        map
    }

    /// A test layout for a standard-size map: floor with a wall frame, and
    /// 400 walls dropped at random positions inside, except on the tile
    /// (40, 25), which stays floor.
    pub fn new_map_test(&self, rng: &mut RandomNumberGenerator) -> (tiles: Vec<TileType>)
        requires
            self.wf(),
            self.width == MAPWIDTH,
            self.height == MAPHEIGHT,
        ensures
            exists|spots: Seq<(i32, i32)>|
                spots.len() == 400 && #[trigger] self.test_layout(spots, tiles@) && forall|k: int|
                    0 <= k < spots.len() ==> 1 <= (#[trigger] spots[k]).0 <= 79 && 1 <= spots[k].1 <= 49,
    {
        let mut spots: Vec<(i32, i32)> = Vec::new();
        let mut k: i32 = 0;
        while k < 400
            invariant
                0 <= k <= 400,
                spots@.len() == k,
                forall|q: int| 0 <= q < spots@.len() ==> 1 <= (#[trigger] spots@[q]).0 <= 79 && 1 <= spots@[q].1 <= 49,
            decreases 400 - k,
        {
            let x = rng_roll_dice(rng, 1, 79);
            let y = rng_roll_dice(rng, 1, 49);
            spots.push((x, y));
            k = k + 1;
        }
        let tiles = self.layout_with_spots(&spots);
        assert(self.test_layout(spots@, tiles@));
        tiles
    }
}

} // verus!
