use vstd::prelude::*;

verus! {

/// Axis-aligned rectangle; `top <= bottom` and `left <= right` in use.
#[derive(Clone, Copy, Debug, PartialEq, Eq, Structural)]
pub struct Rect {
    pub top: i64,
    pub left: i64,
    pub right: i64,
    pub bottom: i64,
}

/// Two closed rectangles overlap (touching edges count).
pub open spec fn rects_meet(r1: Rect, r2: Rect) -> bool {
    !(r2.left > r1.right || r2.right < r1.left || r2.top > r1.bottom || r2.bottom < r1.top)
}

pub fn rect_intersect(r1: &Rect, r2: &Rect) -> (r: bool)
    ensures
        r == rects_meet(*r1, *r2),
{
    !(r2.left > r1.right || r2.right < r1.left || r2.top > r1.bottom || r2.bottom < r1.top)
}

/// The square of half-width `half` centred on `(x, y)`.
pub open spec fn square_spec(x: int, y: int, half: int) -> Rect {
    Rect {
        top: (y - half) as i64,
        left: (x - half) as i64,
        right: (x + half) as i64,
        bottom: (y + half) as i64,
    }
}

/// Bound on coordinates for which boxes around a point are representable.
pub const BOX_COORD_LIMIT: i64 = 0x1000_0000_0000_0000;

pub open spec fn box_fits(x: int, y: int, half: int) -> bool {
    &&& -BOX_COORD_LIMIT <= x <= BOX_COORD_LIMIT
    &&& -BOX_COORD_LIMIT <= y <= BOX_COORD_LIMIT
    &&& 0 <= half <= BOX_COORD_LIMIT
}

pub fn square(x: i64, y: i64, half: i64) -> (r: Rect)
    requires
        box_fits(x as int, y as int, half as int),
    ensures
        r == square_spec(x as int, y as int, half as int),
        r.top == y - half,
        r.left == x - half,
        r.right == x + half,
        r.bottom == y + half,
{
    Rect { top: y - half, left: x - half, right: x + half, bottom: y + half }
}

} // verus!
