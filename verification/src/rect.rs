//! Axis-aligned room geometry: construction, the integer-midpoint centre used
//! as a corridor anchor, and the conservative bounding-box intersection test
//! that the generator uses to reject overlapping rooms.

use vstd::prelude::*;

verus! {

/// A rectangle on the map, used to characterise a room. `(x1, y1)` is the
/// top-left corner; `x2 = x1 + w` and `y2 = y1 + h` bound it on the right and
/// below. Carving empties only the interior `(x1, x2) × (y1, y2)` (both ends
/// exclusive), so every room keeps a one-tile solid border.
#[derive(Clone, Copy, Debug, PartialEq, Eq, Structural)]
pub struct Rect {
    pub x1: i32,
    pub y1: i32,
    pub x2: i32,
    pub y2: i32,
}

impl Rect {
    /// A rectangle is well formed when its corners are non-negative and
    /// ordered.
    pub open spec fn wf(self) -> bool {
        0 <= self.x1 <= self.x2 && 0 <= self.y1 <= self.y2
    }

    /// The integer midpoint of the bounding box, truncated toward the origin.
    pub open spec fn spec_center(self) -> (int, int) {
        ((self.x1 + self.x2) / 2, (self.y1 + self.y2) / 2)
    }

    /// The closed bounding boxes of the two rectangles overlap on both axes.
    /// Non-strict comparisons make rectangles that merely touch along an edge
    /// count as intersecting.
    pub open spec fn spec_intersects(self, other: Rect) -> bool {
        self.x1 <= other.x2 && self.x2 >= other.x1 && self.y1 <= other.y2
            && self.y2 >= other.y1
    }

    /// `(x, y)` lies strictly inside the bounding box: the region that
    /// carving a room empties.
    pub open spec fn interior(self, x: int, y: int) -> bool {
        self.x1 < x < self.x2 && self.y1 < y < self.y2
    }

    /// Builds the rectangle spanning `[x, x + w) × [y, y + h)`.
    pub fn new(x: i32, y: i32, w: i32, h: i32) -> (r: Rect)
        requires
            0 <= x,
            0 <= y,
            0 <= w,
            0 <= h,
            x + w <= i32::MAX,
            y + h <= i32::MAX,
        ensures
            r.x1 == x,
            r.y1 == y,
            r.x2 == x + w,
            r.y2 == y + h,
            r.wf(),
    {
        Rect { x1: x, y1: y, x2: x + w, y2: y + h }
    }

    /// Returns the integer midpoint of the rectangle, the stable anchor that
    /// corridors connect.
    pub fn center(&self) -> (c: (i32, i32))
        requires
            self.wf(),
        ensures
            (c.0 as int, c.1 as int) == self.spec_center(),
            self.x1 <= c.0 <= self.x2,
            self.y1 <= c.1 <= self.y2,
    {
        let cx = (self.x1 as i64 + self.x2 as i64) / 2;
        let cy = (self.y1 as i64 + self.y2 as i64) / 2;
        (cx as i32, cy as i32)
    }

    /// Returns true iff this rectangle's closed bounding box overlaps
    /// `other`'s on both axes.
    pub fn intersects_with(&self, other: &Rect) -> (r: bool)
        ensures
            r == self.spec_intersects(*other),
    {
        self.x1 <= other.x2 && self.x2 >= other.x1 && self.y1 <= other.y2
            && self.y2 >= other.y1
    }
}

/// The intersection test is symmetric: the order of the two rectangles does
/// not matter.
pub proof fn lemma_intersects_symmetric(a: Rect, b: Rect)
    ensures
        a.spec_intersects(b) == b.spec_intersects(a),
{
}

} // verus!
