//! Axis-aligned rectangles, the footprint of a room.

use vstd::prelude::*;

verus! {

/// A rectangle from `(x1, y1)` to `(x2, y2)`.
///
/// A room's walls lie on the rectangle's edge; its floor is the cells strictly
/// inside.
#[derive(Clone, Copy, Debug, PartialEq, Eq, Structural)]
pub struct Rect {
    pub x1: i32,
    pub y1: i32,
    pub x2: i32,
    pub y2: i32,
}

/// Half of `s`, rounded toward zero.
pub open spec fn half_toward_zero(s: int) -> int {
    if s >= 0 {
        s / 2
    } else {
        -((-s) / 2)
    }
}

impl Rect {
    /// The rectangle with its corner at `(x, y)`, `w` wide and `h` high.
    pub fn new(x: i32, y: i32, w: i32, h: i32) -> (rect: Self)
        requires
            i32::MIN <= x + w <= i32::MAX,
            i32::MIN <= y + h <= i32::MAX,
        ensures
            rect.x1 == x,
            rect.y1 == y,
            rect.x2 == x + w,
            rect.y2 == y + h,
    {
        Rect { x1: x, y1: y, x2: x + w, y2: y + h }
    }

    /// The cell midway between the corners.
    pub open spec fn spec_center(self) -> (int, int) {
        (half_toward_zero(self.x1 + self.x2), half_toward_zero(self.y1 + self.y2))
    }

    /// The cell midway between the corners; it never leaves `i32`.
    pub fn center(&self) -> (c: (i32, i32))
        ensures
            c.0 == self.spec_center().0,
            c.1 == self.spec_center().1,
    {
        let sum_x: i64 = self.x1 as i64 + self.x2 as i64;
        let sum_y: i64 = self.y1 as i64 + self.y2 as i64;
        ((sum_x / 2) as i32, (sum_y / 2) as i32)
    }

    /// Whether the two rectangles share a cell, edges included: rooms that
    /// only touch along a wall count as intersecting.
    pub open spec fn spec_intersects_with(self, other: Rect) -> bool {
        &&& self.x1 <= other.x2
        &&& self.x2 >= other.x1
        &&& self.y1 <= other.y2
        &&& self.y2 >= other.y1
    }

    /// Tells whether the two rectangles share a cell, edges included.
    pub fn intersects_with(&self, other: &Rect) -> (b: bool)
        ensures
            b == self.spec_intersects_with(*other),
    {
        (self.x1 <= other.x2) && (self.x2 >= other.x1) && (self.y1 <= other.y2) && (self.y2
            >= other.y1)
    }

    /// Whether `(x, y)` lies strictly inside the rectangle.
    pub open spec fn inside(self, x: int, y: int) -> bool {
        self.x1 < x < self.x2 && self.y1 < y < self.y2
    }
}

/// Two rectangles that do not intersect have no inner cell in common, and no
/// inner cell of one lies on the other's edge.
pub proof fn lemma_apart_rooms_share_no_cell(a: Rect, b: Rect, x: int, y: int)
    requires
        !a.spec_intersects_with(b),
        a.inside(x, y),
    ensures
        !(b.x1 <= x <= b.x2 && b.y1 <= y <= b.y2),
{
}

/// Intersection does not depend on the order of the two rectangles.
pub proof fn lemma_intersects_symmetric(a: Rect, b: Rect)
    ensures
        a.spec_intersects_with(b) == b.spec_intersects_with(a),
{
}

} // verus!
