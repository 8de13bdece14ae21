//! Rectangles in whole pixels.

use vstd::prelude::*;

verus! {

/// A rectangle, without its right and bottom edges.
#[derive(Clone, Copy, PartialEq, Eq, Structural, Debug)]
pub struct Rect {
    pub left: i32,
    pub top: i32,
    pub right: i32,
    pub bottom: i32,
}

impl Rect {
    /// The point lies in it.
    pub open spec fn holds(self, x: int, y: int) -> bool {
        self.left <= x < self.right && self.top <= y < self.bottom
    }

    pub open spec fn width(self) -> int {
        self.right - self.left
    }

    pub open spec fn height(self) -> int {
        self.bottom - self.top
    }
}

pub fn rect(left: i32, top: i32, right: i32, bottom: i32) -> (r: Rect)
    ensures
        r == (Rect { left, top, right, bottom }),
{
    Rect { left, top, right, bottom }
}

/// Where the window was: its normal (not maximised) rectangle in screen pixels, and whether it was
/// maximised.
#[derive(Clone, Copy, PartialEq, Eq, Structural, Debug)]
pub struct Placement {
    pub rect: Rect,
    pub max: bool,
}

/// Half of a difference, rounded half away from zero: where something is to start that is to stand
/// in the middle.
pub open spec fn half(d: int) -> int {
    if d >= 0 {
        (d + 1) / 2
    } else {
        -((1 - d) / 2)
    }
}

pub fn half_of(d: i64) -> (r: i64)
    requires
        -i64::MAX < d < i64::MAX,
    ensures
        r == half(d as int),
{
    if d >= 0 {
        (d + 1) / 2
    } else {
        -((1 - d) / 2)
    }
}

/// Half of a difference is exact where it can be, else the nearest whole number further from zero; and
/// halves of opposite differences are opposite.
pub proof fn law_half(d: int)
    ensures
        d % 2 == 0 ==> 2 * half(d) == d,
        d % 2 == 1 && d > 0 ==> 2 * half(d) == d + 1,
        d % 2 == 1 && d < 0 ==> 2 * half(d) == d - 1,
        half(-d) == -half(d),
{
}

/// A rectangle holds a point that is at or past its left and top and short of its right and bottom: so
/// two side by side share none, and one without a width or height holds none.
pub proof fn law_rect_holds(r: Rect, s: Rect, x: int, y: int)
    ensures
        r.holds(x, y) ==> r.width() > 0 && r.height() > 0,
        r.right == s.left ==> !(r.holds(x, y) && s.holds(x, y)),
        r.bottom == s.top ==> !(r.holds(x, y) && s.holds(x, y)),
        r.width() > 0 && r.height() > 0 ==> r.holds(r.left as int, r.top as int) && r.holds(
            r.right - 1,
            r.bottom - 1,
        ) && !r.holds(r.right as int, y) && !r.holds(x, r.bottom as int),
{
}

} // verus!
