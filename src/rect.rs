use vstd::prelude::*;

verus! {

/// An axis-aligned rectangle given by two corners; the carved interior is
/// `x1 + 1 ..= x2` by `y1 + 1 ..= y2`.
#[derive(Clone, Copy, Debug, PartialEq, Eq, Structural)]
pub struct Rect {
    pub x1: i32,
    pub y1: i32,
    pub x2: i32,
    pub y2: i32,
}

/// Inclusive overlap test of two rectangles.
pub open spec fn rects_overlap(a: Rect, b: Rect) -> bool {
    a.x1 <= b.x2 && a.x2 >= b.x1 && a.y1 <= b.y2 && a.y2 >= b.y1
}

/// Half of `v`, rounded toward zero as machine division does.
pub open spec fn half_toward_zero(v: int) -> int {
    if v >= 0 { v / 2 } else { -((-v) / 2) }
}

pub open spec fn center_of(r: Rect) -> (int, int) {
    (half_toward_zero(r.x1 + r.x2), half_toward_zero(r.y1 + r.y2))
}

impl Rect {
    pub fn new(x: i32, y: i32, w: i32, h: i32) -> (r: Rect)
        requires
            i32::MIN <= x + w <= i32::MAX,
            i32::MIN <= y + h <= i32::MAX,
        ensures
            r == (Rect { x1: x, y1: y, x2: (x + w) as i32, y2: (y + h) as i32 }),
    {
        Rect { x1: x, y1: y, x2: x + w, y2: y + h }
    }

    /// True when the two rectangles share at least one point (edges included).
    pub fn intersect(&self, other: &Rect) -> (r: bool)
        ensures
            r == rects_overlap(*self, *other),
    {
        self.x1 <= other.x2 && self.x2 >= other.x1 && self.y1 <= other.y2 && self.y2 >= other.y1
    }

    pub fn center(&self) -> (r: (i32, i32))
        ensures
            r.0 == center_of(*self).0,
            r.1 == center_of(*self).1,
    {
        let cx = ((self.x1 as i64 + self.x2 as i64) / 2) as i32;
        let cy = ((self.y1 as i64 + self.y2 as i64) / 2) as i32;
        (cx, cy)
    }
}

} // verus!
