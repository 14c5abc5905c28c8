use vstd::prelude::*;

verus! {

/// A room's bounds: cells strictly between `x1` and `x2` (and `y1`, `y2`)
/// are its interior.
#[derive(Clone, Copy, Debug, PartialEq, Eq, Structural)]
pub struct Rect {
    pub x1: i32,
    pub x2: i32,
    pub y1: i32,
    pub y2: i32,
}

/// Half of `s`, rounded toward zero.
pub open spec fn half(s: int) -> int {
    if s >= 0 {
        s / 2
    } else {
        -((-s) / 2)
    }
}

impl Rect {
    pub open spec fn center_spec(self) -> (int, int) {
        (half(self.x1 + self.x2), half(self.y1 + self.y2))
    }

    /// Inclusive overlap test: rooms that share a border line intersect.
    pub open spec fn intersects_spec(self, other: Rect) -> bool {
        self.x1 <= other.x2 && self.x2 >= other.x1 && self.y1 <= other.y2 && self.y2 >= other.y1
    }

    /// `(x, y)` lies strictly inside the bounds.
    pub open spec fn interior_contains(self, x: int, y: int) -> bool {
        self.x1 < x < self.x2 && self.y1 < y < self.y2
    }

    /// The rect with top-left corner `(x, y)`, width `w` and height `h`.
    pub fn new(x: i32, y: i32, w: i32, h: i32) -> (r: Self)
        requires
            i32::MIN <= x + w <= i32::MAX,
            i32::MIN <= y + h <= i32::MAX,
        ensures
            r.x1 == x && r.y1 == y && r.x2 == x + w && r.y2 == y + h,
    {
        Rect { x1: x, y1: y, x2: x + w, y2: y + h }
    }

    /// Midpoint of the bounds, rounded toward zero on each axis.
    pub fn center(&self) -> (r: (i32, i32))
        ensures
            r.0 == self.center_spec().0,
            r.1 == self.center_spec().1,
    {
        (half_of(self.x1 as i64 + self.x2 as i64), half_of(self.y1 as i64 + self.y2 as i64))
    }

    pub fn intersects_with(&self, other: &Rect) -> (r: bool)
        ensures
            r == self.intersects_spec(*other),
    {
        (self.x1 <= other.x2) && (self.x2 >= other.x1) && (self.y1 <= other.y2) && (self.y2
            >= other.y1)
    }
}

fn half_of(s: i64) -> (r: i32)
    requires
        2 * i32::MIN <= s <= 2 * i32::MAX,
    ensures
        r == half(s as int),
{
    if s >= 0 {
        (s / 2) as i32
    } else {
        (-((-s) / 2)) as i32
    }
}

} // verus!
