//! How a photo lies on the screen: turned by its EXIF orientation and by the user.

use crate::wic::across;
use vstd::prelude::*;

verus! {

/// A map from the corners of what is shown to the corners of the stored picture: the x and the y
/// of the stored point are each a whole combination of the shown x and y.
#[derive(Clone, Copy, PartialEq, Eq, Structural, Debug)]
pub struct Turn {
    pub xx: i32,
    pub xy: i32,
    pub yx: i32,
    pub yy: i32,
    pub x: i32,
    pub y: i32,
}

impl Turn {
    /// The stored point that a shown point shows.
    pub open spec fn at(self, x: int, y: int) -> (int, int) {
        (self.xx * x + self.xy * y + self.x, self.yx * x + self.yy * y + self.y)
    }

    /// Every number of it is -1, 0 or 1, and it maps the four corners onto the four corners.
    pub open spec fn proper(self) -> bool {
        &&& -1 <= self.xx <= 1 && -1 <= self.xy <= 1 && -1 <= self.yx <= 1 && -1 <= self.yy <= 1
        &&& (self.xx == 0) == (self.yy == 0)
        &&& (self.xy == 0) == (self.yx == 0)
        &&& (self.xx == 0) != (self.xy == 0)
        &&& self.x == (if self.xx == -1 || self.xy == -1 {
            1int
        } else {
            0
        })
        &&& self.y == (if self.yx == -1 || self.yy == -1 {
            1int
        } else {
            0
        })
    }
}

pub open spec fn turn_of(xx: int, xy: int, yx: int, yy: int, x: int, y: int) -> Turn {
    Turn {
        xx: xx as i32,
        xy: xy as i32,
        yx: yx as i32,
        yy: yy as i32,
        x: x as i32,
        y: y as i32,
    }
}

/// How the stored picture is turned for display, by the EXIF orientation.
pub open spec fn exif(orient: u8) -> Turn {
    if orient == 2 {
        turn_of(-1, 0, 0, 1, 1, 0)
    } else if orient == 3 {
        turn_of(-1, 0, 0, -1, 1, 1)
    } else if orient == 4 {
        turn_of(1, 0, 0, -1, 0, 1)
    } else if orient == 5 {
        turn_of(0, 1, 1, 0, 0, 0)
    } else if orient == 6 {
        turn_of(0, 1, -1, 0, 0, 1)
    } else if orient == 7 {
        turn_of(0, -1, -1, 0, 1, 1)
    } else if orient == 8 {
        turn_of(0, -1, 1, 0, 1, 0)
    } else {
        turn_of(1, 0, 0, 1, 0, 0)
    }
}

/// What is shown turned clockwise by a quarter: a shown point (x, y) was at (y, 1 - x) before.
pub open spec fn quarter(t: Turn) -> Turn {
    turn_of(-t.xy, t.xx as int, -t.yy, t.yx as int, t.xy + t.x, t.yy + t.y)
}

/// `n` quarter turns clockwise.
pub open spec fn quarters(t: Turn, n: nat) -> Turn
    decreases n,
{
    if n == 0 {
        t
    } else {
        quarter(quarters(t, (n - 1) as nat))
    }
}

fn exif_turn(orient: u8) -> (t: Turn)
    ensures
        t == exif(orient),
{
    if orient == 2 {
        Turn { xx: -1, xy: 0, yx: 0, yy: 1, x: 1, y: 0 }
    } else if orient == 3 {
        Turn { xx: -1, xy: 0, yx: 0, yy: -1, x: 1, y: 1 }
    } else if orient == 4 {
        Turn { xx: 1, xy: 0, yx: 0, yy: -1, x: 0, y: 1 }
    } else if orient == 5 {
        Turn { xx: 0, xy: 1, yx: 1, yy: 0, x: 0, y: 0 }
    } else if orient == 6 {
        Turn { xx: 0, xy: 1, yx: -1, yy: 0, x: 0, y: 1 }
    } else if orient == 7 {
        Turn { xx: 0, xy: -1, yx: -1, yy: 0, x: 1, y: 1 }
    } else if orient == 8 {
        Turn { xx: 0, xy: -1, yx: 1, yy: 0, x: 1, y: 0 }
    } else {
        Turn { xx: 1, xy: 0, yx: 0, yy: 1, x: 0, y: 0 }
    }
}

/// The corner map for an EXIF orientation and `rot` user quarter turns clockwise.
pub fn uv_transform(orient: u8, rot: u8) -> (t: Turn)
    ensures
        t == quarters(exif(orient), (rot % 4) as nat),
        t.proper(),
{
    let n: u8 = rot % 4;
    let mut t = exif_turn(orient);
    for i in 0..n
        invariant
            t == quarters(exif(orient), i as nat),
            t.proper(),
    {
        t = Turn { xx: -t.xy, xy: t.xx, yx: -t.yy, yy: t.yx, x: t.xy + t.x, y: t.yy + t.y };
    }
    t
}

/// A quarter turn shows at (x, y) what was at (y, 1 - x).
pub proof fn law_quarter(t: Turn, x: int, y: int)
    requires
        t.proper(),
    ensures
        quarter(t).at(x, y) == t.at(y, 1 - x),
        quarter(t).proper(),
{
    assert(t.xy * (1 - x) == t.xy - t.xy * x) by (nonlinear_arith);
    assert(t.yy * (1 - x) == t.yy - t.yy * x) by (nonlinear_arith);
    assert((-t.xy) * x == -(t.xy * x)) by (nonlinear_arith);
    assert((-t.yy) * x == -(t.yy * x)) by (nonlinear_arith);
}

/// Four quarter turns are none.
pub proof fn law_four_turns(t: Turn)
    requires
        t.proper(),
    ensures
        quarters(t, 4) == t,
{
    reveal_with_fuel(quarters, 5);
}

/// A turn clockwise and one back are none: back is three clockwise.
pub proof fn law_turn_and_back(t: Turn)
    requires
        t.proper(),
    ensures
        quarters(quarter(t), 3) == t,
        quarter(quarters(t, 3)) == t,
{
    reveal_with_fuel(quarters, 5);
}

/// The whole picture is shown, whatever its orientation and turn: the corners of the screen show
/// the corners of the picture, each its own.
pub proof fn law_corners(t: Turn, x: int, y: int, u: int, v: int)
    requires
        t.proper(),
        0 <= x <= 1,
        0 <= y <= 1,
        0 <= u <= 1,
        0 <= v <= 1,
    ensures
        0 <= t.at(x, y).0 <= 1,
        0 <= t.at(x, y).1 <= 1,
        t.at(x, y) == t.at(u, v) ==> x == u && y == v,
{
    let (a, b, c, d) = (t.xx as int, t.xy as int, t.yx as int, t.yy as int);
    assert((x == 0 || x == 1) && (y == 0 || y == 1) && (u == 0 || u == 1) && (v == 0 || v == 1));
    assert(a * 0 == 0 && b * 0 == 0 && c * 0 == 0 && d * 0 == 0);
    assert(a * 1 == a && b * 1 == b && c * 1 == c && d * 1 == d);
}

/// Whether width and height change places.
pub open spec fn swapped(orient: u8, rot: u8) -> bool {
    across(orient) != (rot % 2 == 1)
}

pub proof fn lemma_quarters_axes(orient: u8, n: nat)
    ensures
        quarters(exif(orient), n).proper(),
        (quarters(exif(orient), n).xx == 0) == ((5 <= orient <= 8) != (n % 2 == 1)),
    decreases n,
{
    if n > 0 {
        lemma_quarters_axes(orient, (n - 1) as nat);
    }
}

/// The axes of the picture lie across the screen exactly where its width and height change places.
pub proof fn law_axes(orient: u8, rot: u8)
    requires
        1 <= orient <= 8,
    ensures
        (quarters(exif(orient), (rot % 4) as nat).xx == 0) == swapped(orient, rot),
{
    lemma_quarters_axes(orient, (rot % 4) as nat);
    assert((rot % 4) % 2 == rot % 2) by (bit_vector);
}

/// The photo's size on screen at zoom 1: its full size, turned by EXIF and by the user.
pub fn dims(full_w: u32, full_h: u32, orient: u8, rot: u8) -> (r: (u32, u32))
    ensures
        r == (if swapped(orient, rot) {
            (full_h, full_w)
        } else {
            (full_w, full_h)
        }),
{
    if (orient >= 5) != (rot % 2 == 1) {
        (full_h, full_w)
    } else {
        (full_w, full_h)
    }
}

/// The user's turns after one more, clockwise or back.
pub fn turn(rot: u8, back: bool) -> (r: u8)
    requires
        rot < 4,
    ensures
        r < 4,
        r == (if back {
            (rot + 3) % 4
        } else {
            (rot + 1) % 4
        }),
{
    if back {
        (rot + 3) % 4
    } else {
        (rot + 1) % 4
    }
}

/// The orientations as EXIF numbers them, by where the first row and the first column of the stored
/// picture are seen: 1 top and left, 2 top and right, 3 bottom and right, 4 bottom and left, 5 left and
/// top, 6 right and top, 7 right and bottom, 8 left and bottom.
pub proof fn law_exif(orient: u8, x: int, y: int)
    requires
        1 <= orient <= 8,
        0 <= x <= 1,
        0 <= y <= 1,
    ensures
        ({
            let (col, row) = exif(orient).at(x, y);
            &&& orient == 1 ==> (row == 0 <==> y == 0) && (col == 0 <==> x == 0)
            &&& orient == 2 ==> (row == 0 <==> y == 0) && (col == 0 <==> x == 1)
            &&& orient == 3 ==> (row == 0 <==> y == 1) && (col == 0 <==> x == 1)
            &&& orient == 4 ==> (row == 0 <==> y == 1) && (col == 0 <==> x == 0)
            &&& orient == 5 ==> (row == 0 <==> x == 0) && (col == 0 <==> y == 0)
            &&& orient == 6 ==> (row == 0 <==> x == 1) && (col == 0 <==> y == 0)
            &&& orient == 7 ==> (row == 0 <==> x == 1) && (col == 0 <==> y == 1)
            &&& orient == 8 ==> (row == 0 <==> x == 0) && (col == 0 <==> y == 1)
        }),
{
}

/// A photo without an orientation is shown as it is stored.
pub proof fn law_upright(orient: u8, x: int, y: int)
    requires
        orient == 1 || orient == 0 || orient > 8,
    ensures
        exif(orient).at(x, y) == (x, y),
{
    let t = exif(orient);
    assert(t.xx * x == x && t.xy * y == 0 && t.yx * x == 0 && t.yy * y == y) by (nonlinear_arith)
        requires
            t.xx == 1 && t.xy == 0 && t.yx == 0 && t.yy == 1,
    ;
}

/// One more of the user's turns, of which four are none, is one more quarter of what is shown.
pub proof fn lemma_one_more(orient: u8, rot: u8)
    requires
        rot < 4,
    ensures
        quarters(exif(orient), ((rot + 1) % 4) as nat) == quarter(quarters(exif(orient), rot as nat)),
        quarters(exif(orient), rot as nat).proper(),
{
    lemma_quarters_axes(orient, rot as nat);
    lemma_quarters_axes(orient, 0);
    law_four_turns(exif(orient));
    if rot == 3 {
        reveal_with_fuel(quarters, 2);
        assert(quarters(exif(orient), 4) == quarter(quarters(exif(orient), 3)));
        assert(quarters(exif(orient), 0) == exif(orient));
    } else {
        assert(quarters(exif(orient), (rot + 1) as nat) == quarter(quarters(exif(orient), rot as nat)));
    }
}

/// Width and height change places for an orientation that lays the picture on its side, or for an odd
/// number of quarter turns, but not for both.
pub proof fn law_sides(orient: u8, rot: u8)
    ensures
        orient <= 4 && rot % 2 == 0 ==> !swapped(orient, rot),
        orient >= 5 && rot % 2 == 0 ==> swapped(orient, rot),
        orient <= 4 && rot % 2 == 1 ==> swapped(orient, rot),
        orient >= 5 && rot % 2 == 1 ==> !swapped(orient, rot),
{
}

} // verus!
