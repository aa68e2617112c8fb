use vstd::prelude::*;

verus! {

/// An axis-aligned room footprint: `x2 = x1 + w`, `y2 = y1 + h`.
#[derive(Clone, Copy, Debug, PartialEq, Eq, Structural)]
pub struct Rect {
    pub x1: i32,
    pub y1: i32,
    pub x2: i32,
    pub y2: i32,
}

/// Floor of the midpoint of `a` and `b`.
pub open spec fn mid(a: int, b: int) -> int {
    (a + b) / 2
}

impl Rect {
    /// The centre of the rectangle, each coordinate rounded down.
    pub open spec fn spec_center(self) -> (int, int) {
        (mid(self.x1 as int, self.x2 as int), mid(self.y1 as int, self.y2 as int))
    }

    /// The closed intervals `[x1, x2]` and `[y1, y2]` of the two rectangles overlap.
    pub open spec fn spec_intersects(self, other: Rect) -> bool {
        self.x1 <= other.x2 && self.x2 >= other.x1 && self.y1 <= other.y2 && self.y2 >= other.y1
    }

    /// `(x, y)` lies strictly inside the rectangle, off its border.
    pub open spec fn in_interior(self, x: int, y: int) -> bool {
        self.x1 < x < self.x2 && self.y1 < y < self.y2
    }

    pub fn new(x: i32, y: i32, w: i32, h: i32) -> (r: Rect)
        requires
            w > 0,
            h > 0,
            x + w <= i32::MAX,
            y + h <= i32::MAX,
        ensures
            r == (Rect { x1: x, y1: y, x2: (x + w) as i32, y2: (y + h) as i32 }),
    {
        Rect { x1: x, y1: y, x2: x + w, y2: y + h }
    }

    pub fn center(&self) -> (c: (i32, i32))
        ensures
            c.0 == self.spec_center().0,
            c.1 == self.spec_center().1,
    {
        (floor_mid(self.x1, self.x2), floor_mid(self.y1, self.y2))
    }

    pub fn intersects_with(&self, other: &Rect) -> (r: bool)
        ensures
            r == self.spec_intersects(*other),
    {
        (self.x1 <= other.x2) && (self.x2 >= other.x1) && (self.y1 <= other.y2) && (self.y2
            >= other.y1)
    }
}

/// Midpoint of two coordinates, rounded towards negative infinity.
fn floor_mid(a: i32, b: i32) -> (m: i32)
    ensures
        m == mid(a as int, b as int),
{
    let s: i64 = a as i64 + b as i64;
    let m: i64 = if s >= 0 {
        s / 2
    } else {
        -((-s + 1) / 2)
    };
    assert(m == (s as int) / 2);
    m as i32
}

/// Overlap is symmetric.
pub proof fn lemma_intersects_symmetric(a: Rect, b: Rect)
    ensures
        a.spec_intersects(b) == b.spec_intersects(a),
{
}

} // verus!
