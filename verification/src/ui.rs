//! The caption, the toolbar, the setup card and the info pill: where their parts are, what each is
//! drawn with, and which part is under a point.
//!
//! A picture is a list of what to draw, in order; the system's own text renderer draws it into a
//! bitmap that goes up as a texture.

use crate::geom::{rect, Rect};
use vstd::prelude::*;

verus! {

// Colours, red highest.
pub const CHROME_BG: u32 = 0x131314;

pub const HOVER: u32 = 0x2a2a2d;

pub const PRESSED: u32 = 0x333337;

pub const CLOSE_HOT: u32 = 0xc42b1c;

pub const TEXT: u32 = 0xc9c9cc;

pub const TEXT_DIM: u32 = 0x86868c;

pub const TEXT_HEAD: u32 = 0xe6e6ea;

pub const BG_PANEL: u32 = 0x242426;

pub const BG_ROW_ALT: u32 = 0x2a2a2d;

pub const LINE: u32 = 0x3a3a3e;

pub const ACCENT: u32 = 0x3d8bd4;

pub const ACCENT_HOT: u32 = 0x4a9ae4;

pub const BOX: u32 = 0x5a5a60;

pub const BG_BAR: u32 = 0x1f1f21;

pub const HOVER_BAR: u32 = 0x3a3a3f;

pub const WHITE: u32 = 0xffffff;

pub const BLACK: u32 = 0x000000;

/// Caption height and button width at 96 dpi: the system caption's, so the buttons sit where a
/// hand reaches for them.
pub const CAPTION_H: i32 = 32;

pub const BUTTON_W: i32 = 46;

pub const LOGO_PX: i32 = 20;

pub const LOGO_SIDE: i32 = 64;

#[derive(Clone, Copy, PartialEq, Eq, Structural, Debug)]
pub enum Button {
    Settings,
    Min,
    Max,
    Close,
}

pub const BUTTONS: [Button; 4] = [Button::Settings, Button::Min, Button::Max, Button::Close];

/// What can be clicked on the setup card.
#[derive(Clone, Copy, PartialEq, Eq, Structural, Debug)]
pub enum CardItem {
    Install,
    Autostart,
    Default,
    Apply,
    Skip,
}

/// The buttons of the bar at the bottom.
#[derive(Clone, Copy, PartialEq, Eq, Structural, Debug)]
pub enum Tool {
    Prev,
    Next,
    ZoomOut,
    ZoomIn,
    Fit,
    Actual,
    Rotate,
    Fullscreen,
    Delete,
}

/// A colour written red highest, as the system takes it: blue highest.
pub fn rgb(c: u32) -> (r: u32)
    requires
        c <= 0xffffff,
    ensures
        r == c / 0x1_0000 + 0x100 * (c / 0x100 % 256) + 0x1_0000 * (c % 256),
{
    c / 0x1_0000 + 0x100 * (c / 0x100 % 256) + 0x1_0000 * (c % 256)
}

/// A length at 96 dpi, at another: rounded to the nearest pixel.
pub open spec fn at_dpi(v: int, dpi: u32) -> int {
    (v * dpi + 48) / 96
}

pub fn scaled(v: i32, dpi: u32) -> (r: i32)
    requires
        0 <= v <= 0x7fff,
        dpi <= 0xffff,
    ensures
        r == at_dpi(v as int, dpi),
        0 <= r,
{
    assert(0 <= v * dpi <= 0x7fff * 0xffff) by (nonlinear_arith)
        requires
            0 <= v <= 0x7fff,
            0 <= dpi <= 0xffff,
    ;
    (v * dpi as i32 + 48) / 96
}

proof fn lemma_at_dpi(v: int, max: int, dpi: u32)
    requires
        0 <= v <= max,
        dpi <= 0xffff,
    ensures
        0 <= at_dpi(v, dpi) <= at_dpi(max, dpi),
        at_dpi(v, dpi) <= v * 683 + 1,
{
    assert(0 <= v * dpi <= max * dpi) by (nonlinear_arith)
        requires
            0 <= v <= max,
            dpi >= 0,
    ;
    assert(v * dpi <= v * 0xffff) by (nonlinear_arith)
        requires
            0 <= v,
            0 <= dpi <= 0xffff,
    ;
}

pub fn caption_h(dpi: u32) -> (r: i32)
    requires
        dpi <= 0xffff,
    ensures
        r == at_dpi(32, dpi),
        0 <= r <= 0x1_0000,
{
    proof {
        lemma_at_dpi(32, 32, dpi);
    }
    scaled(CAPTION_H, dpi)
}

pub fn buttons_w(dpi: u32) -> (r: i32)
    requires
        dpi <= 0xffff,
    ensures
        r == at_dpi(46, dpi) * 4,
        0 <= r <= 0x2_0000,
{
    proof {
        lemma_at_dpi(46, 46, dpi);
    }
    scaled(BUTTON_W, dpi) * 4
}

/// Where a caption button is: side by side at the right end, the last one in the corner.
pub open spec fn button_rect(k: int, width: int, dpi: u32) -> Rect {
    let bw = at_dpi(46, dpi);
    Rect {
        left: (width - bw * (4 - k)) as i32,
        top: 0,
        right: (width - bw * (3 - k)) as i32,
        bottom: at_dpi(32, dpi) as i32,
    }
}

/// The caption button under a point.
pub open spec fn button_under(x: int, y: int, width: int, dpi: u32) -> Option<Button> {
    if button_rect(0, width, dpi).holds(x, y) {
        Some(Button::Settings)
    } else if button_rect(1, width, dpi).holds(x, y) {
        Some(Button::Min)
    } else if button_rect(2, width, dpi).holds(x, y) {
        Some(Button::Max)
    } else if button_rect(3, width, dpi).holds(x, y) {
        Some(Button::Close)
    } else {
        None
    }
}

/// Which caption button is under a client point, if any.
pub fn button_at(x: i32, y: i32, width: i32, dpi: u32) -> (r: Option<Button>)
    requires
        dpi <= 0xffff,
        0 <= width,
    ensures
        r == button_under(x as int, y as int, width as int, dpi),
{
    let bw: i32 = scaled(BUTTON_W, dpi);
    let h: i32 = caption_h(dpi);
    proof {
        lemma_at_dpi(46, 46, dpi);
        lemma_at_dpi(32, 32, dpi);
    }
    let left: i32 = width - bw * 4;
    assert(bw * (4 - 0) == bw * 4 && bw * (4 - 1) == bw * 3 && bw * (4 - 2) == bw * 2 && bw * (4 - 3)
        == bw && bw * (3 - 0) == bw * 3 && bw * (3 - 1) == bw * 2 && bw * (3 - 2) == bw && bw * (3
        - 3) == 0);
    if y < 0 || y >= h || x < left || x >= width {
        return None;
    }
    let k: usize = if x < left + bw {
        0
    } else if x < left + bw * 2 {
        1
    } else if x < left + bw * 3 {
        2
    } else {
        3
    };
    Some(BUTTONS[k])
}

/// A point is over one caption button at most.
pub proof fn law_one_button(j: int, k: int, x: int, y: int, width: int, dpi: u32)
    requires
        0 <= j < k < 4,
        dpi <= 0xffff,
        0 <= width <= i32::MAX,
        button_rect(j, width, dpi).holds(x, y),
    ensures
        !button_rect(k, width, dpi).holds(x, y),
{
    lemma_at_dpi(46, 46, dpi);
    let bw = at_dpi(46, dpi);
    assert(bw * (3 - j) >= bw * (4 - k)) by (nonlinear_arith)
        requires
            bw >= 0,
            0 <= j < k < 4,
    ;
    assert(bw * (4 - j) <= bw * 4 && 0 <= bw * (4 - k) <= bw * 4 && 0 <= bw * (3 - j) <= bw * 4
        && 0 <= bw * (3 - k) && 0 <= bw * (4 - j)) by (nonlinear_arith)
        requires
            bw >= 0,
            0 <= j < k < 4,
    ;
}

/// The first of the parts of a panel that is under a point, in the panel's own pixels.
pub open spec fn part_at<T>(items: Seq<(T, Rect)>, x: int, y: int) -> Option<T>
    decreases items.len(),
{
    if items.len() == 0 {
        None
    } else if items[0].1.holds(x, y) {
        Some(items[0].0)
    } else {
        part_at(items.skip(1), x, y)
    }
}

/// The part found under a point holds it, and some part is found wherever one holds it.
pub proof fn lemma_part_at<T>(items: Seq<(T, Rect)>, x: int, y: int)
    ensures
        part_at(items, x, y) matches Some(t) ==> exists|i: int|
            0 <= i < items.len() && (#[trigger] items[i]).0 == t && items[i].1.holds(x, y),
        part_at(items, x, y) is None ==> forall|i: int|
            0 <= i < items.len() ==> !(#[trigger] items[i]).1.holds(x, y),
    decreases items.len(),
{
    if items.len() > 0 && !items[0].1.holds(x, y) {
        let rest = items.skip(1);
        lemma_part_at(rest, x, y);
        match part_at(rest, x, y) {
            Some(t) => {
                let i = choose|i: int|
                    0 <= i < rest.len() && (#[trigger] rest[i]).0 == t && rest[i].1.holds(x, y);
                assert(items[i + 1] == rest[i]);
            },
            None => {
                assert forall|i: int| 0 <= i < items.len() implies !(#[trigger] items[i]).1.holds(
                    x,
                    y,
                ) by {
                    if i > 0 {
                        assert(items[i] == rest[i - 1]);
                    }
                }
            },
        }
    }
}

/// The part of a panel under a point, `at` being where the panel is.
pub fn item_at<T: Copy>(items: &Vec<(T, Rect)>, at: (i32, i32), x: i32, y: i32) -> (r: Option<T>)
    ensures
        r == part_at(items@, x - at.0, y - at.1),
{
    let px: i64 = x as i64 - at.0 as i64;
    let py: i64 = y as i64 - at.1 as i64;
    let n: usize = items.len();
    assert(items@.skip(0) =~= items@);
    for i in 0..n
        invariant
            n == items@.len(),
            px == x - at.0,
            py == y - at.1,
            part_at(items@, px as int, py as int) == part_at(
                items@.skip(i as int),
                px as int,
                py as int,
            ),
    {
        let r: Rect = items[i].1;
        assert(items@.skip(i as int)[0] == items@[i as int]);
        assert(items@.skip(i as int).skip(1) =~= items@.skip(i + 1));
        if px >= r.left as i64 && px < r.right as i64 && py >= r.top as i64 && py < r.bottom as i64 {
            return Some(items[i].0);
        }
    }
    None
}

#[derive(Clone, Copy, PartialEq, Eq, Structural, Debug)]
pub enum Font {
    Caption,
    Icons,
    BarGlyphs,
    BarText,
    Title,
    Body,
    Check,
    Pill,
}

#[derive(Clone, Copy, PartialEq, Eq, Structural, Debug)]
pub enum Align {
    Left,
    Center,
    Right,
}

/// The height of a font at 96 dpi.
pub open spec fn font_size(f: Font) -> i32 {
    match f {
        Font::Caption | Font::BarText | Font::Body | Font::Pill => 13,
        Font::Icons => 10,
        Font::BarGlyphs => 16,
        Font::Title => 20,
        Font::Check => 12,
    }
}

pub fn font_px(f: Font, dpi: u32) -> (r: i32)
    requires
        dpi <= 0xffff,
    ensures
        r == at_dpi(font_size(f) as int, dpi),
{
    let v: i32 = match f {
        Font::Caption | Font::BarText | Font::Body | Font::Pill => 13,
        Font::Icons => 10,
        Font::BarGlyphs => 16,
        Font::Title => 20,
        Font::Check => 12,
    };
    scaled(v, dpi)
}

/// The icon font there is: Windows 11's, or Windows 10's where that is missing.
pub fn icon_face(face: &str) -> (r: &'static str)
    ensures
        r@ == (if face@ == "Segoe Fluent Icons"@ {
            "Segoe Fluent Icons"@
        } else {
            "Segoe MDL2 Assets"@
        }),
{
    if crate::text::is_word(crate::text::chars_of(face).as_slice(), "Segoe Fluent Icons") {
        "Segoe Fluent Icons"
    } else {
        "Segoe MDL2 Assets"
    }
}

/// Something to draw.
#[allow(inconsistent_fields)]
pub enum Op {
    Fill { r: Rect, c: u32 },
    /// A filled rectangle with rounded corners.
    Round { r: Rect, radius: i32, c: u32 },
    Text { s: String, font: Font, c: u32, r: Rect, align: Align, ellipsis: bool },
}

/// The same over what the text holds.
#[allow(inconsistent_fields)]
pub enum Ink {
    Fill { r: Rect, c: u32 },
    Round { r: Rect, radius: i32, c: u32 },
    Text { s: Seq<char>, font: Font, c: u32, r: Rect, align: Align, ellipsis: bool },
}

impl View for Op {
    type V = Ink;

    open spec fn view(&self) -> Ink {
        match *self {
            Op::Fill { r, c } => Ink::Fill { r, c },
            Op::Round { r, radius, c } => Ink::Round { r, radius, c },
            Op::Text { s, font, c, r, align, ellipsis } => Ink::Text {
                s: s@,
                font,
                c,
                r,
                align,
                ellipsis,
            },
        }
    }
}

pub open spec fn inks(v: Seq<Op>) -> Seq<Ink> {
    v.map_values(|o: Op| o@)
}

/// A text to draw, or nothing where it is empty.
pub open spec fn written(
    s: Seq<char>,
    font: Font,
    c: u32,
    r: Rect,
    align: Align,
    ellipsis: bool,
) -> Seq<Ink> {
    if s.len() == 0 {
        seq![]
    } else {
        seq![Ink::Text { s, font, c, r, align, ellipsis }]
    }
}

fn put(v: &mut Vec<Op>, o: Op)
    ensures
        inks(final(v)@) == inks(old(v)@).push(o@),
{
    v.push(o);
    assert(inks(v@) =~= inks(old(v)@).push(o@));
}

fn write(v: &mut Vec<Op>, s: &str, font: Font, c: u32, r: Rect, align: Align, ellipsis: bool)
    ensures
        inks(final(v)@) == inks(old(v)@) + written(s@, font, c, r, align, ellipsis),
{
    let chars = crate::text::chars_of(s);
    if chars.len() > 0 {
        put(v, Op::Text { s: s.to_owned(), font, c, r, align, ellipsis });
        assert(inks(v@) =~= inks(old(v)@) + written(s@, font, c, r, align, ellipsis));
    } else {
        assert(inks(v@) =~= inks(old(v)@) + written(s@, font, c, r, align, ellipsis));
    }
}

fn glyph(c: char) -> (s: String)
    ensures
        s@ == seq![c],
{
    let mut s = String::new();
    s.push(c);
    assert(s@ =~= seq![c]);
    s
}

/// The sign on a caption button.
pub open spec fn button_glyph(b: Button, maximized: bool) -> char {
    match b {
        Button::Settings => '\u{E713}',
        Button::Min => '\u{E921}',
        Button::Max => if maximized {
            '\u{E923}'
        } else {
            '\u{E922}'
        },
        Button::Close => '\u{E8BB}',
    }
}

/// What a caption button is drawn with: a ground under the pointer, and its sign.
pub open spec fn button_inks(
    k: int,
    width: int,
    dpi: u32,
    hot: Option<Button>,
    pressed: bool,
    maximized: bool,
) -> Seq<Ink> {
    let b = BUTTONS@[k];
    let r = button_rect(k, width, dpi);
    let is_hot = hot == Some(b);
    let ground = if b == Button::Close {
        CLOSE_HOT
    } else if pressed {
        PRESSED
    } else {
        HOVER
    };
    let c = if !is_hot {
        TEXT_DIM
    } else if b == Button::Close {
        WHITE
    } else {
        TEXT_HEAD
    };
    (if is_hot {
        seq![Ink::Fill { r, c: ground }]
    } else {
        seq![]
    }) + written(seq![button_glyph(b, maximized)], Font::Icons, c, r, Align::Center, false)
}

/// The first `n` caption buttons.
pub open spec fn buttons_inks(
    n: nat,
    width: int,
    dpi: u32,
    hot: Option<Button>,
    pressed: bool,
    maximized: bool,
) -> Seq<Ink>
    decreases n,
{
    if n == 0 {
        seq![]
    } else {
        buttons_inks((n - 1) as nat, width, dpi, hot, pressed, maximized) + button_inks(
            n - 1,
            width,
            dpi,
            hot,
            pressed,
            maximized,
        )
    }
}

/// The side of the logo in the caption.
pub open spec fn logo_side(dpi: u32) -> int {
    if at_dpi(20, dpi) < 64 {
        at_dpi(20, dpi)
    } else {
        64
    }
}

/// Where the file name starts in the caption: after the logo.
pub open spec fn title_x(dpi: u32) -> int {
    at_dpi(10, dpi) + logo_side(dpi) + at_dpi(8, dpi)
}

/// Where the info starts, `iw` wide, and ends: before the buttons, and never over the file name's
/// first letters.
pub open spec fn info_span(width: int, dpi: u32, iw: int) -> (int, int) {
    let right = width - at_dpi(46, dpi) * 4 - at_dpi(14, dpi);
    let left = right - iw;
    let least = title_x(dpi) + at_dpi(60, dpi);
    (if left > least {
        left
    } else {
        least
    }, right)
}

/// The caption: the ground, the buttons, the info at the right, the file name.
pub open spec fn caption_inks(
    dpi: u32,
    width: int,
    title: Seq<char>,
    info: Seq<char>,
    iw: int,
    hot: Option<Button>,
    pressed: bool,
    maximized: bool,
) -> Seq<Ink> {
    let h = at_dpi(32, dpi) as i32;
    let across = |l: int, r: int| Rect { left: l as i32, top: 0, right: r as i32, bottom: h };
    let span = info_span(width, dpi, iw);
    let title_r = span.0 - at_dpi(16, dpi);
    seq![Ink::Fill { r: across(0, width), c: CHROME_BG }] + buttons_inks(
        4,
        width,
        dpi,
        hot,
        pressed,
        maximized,
    ) + (if span.1 > span.0 {
        written(info, Font::Caption, TEXT_DIM, across(span.0, span.1), Align::Right, true)
    } else {
        seq![]
    }) + (if title_r > title_x(dpi) {
        written(title, Font::Caption, TEXT, across(title_x(dpi), title_r), Align::Left, true)
    } else {
        seq![]
    })
}

/// A picture to draw: its size, what to draw in order, and where its parts are.
pub struct Panel<T> {
    pub w: i32,
    pub h: i32,
    pub ops: Vec<Op>,
    pub items: Vec<(T, Rect)>,
}

/// The caption: logo, file name, info at the right (`iw` pixels wide), then the buttons. The logo
/// goes on top, at the place given with it.
pub fn caption(
    dpi: u32,
    width: i32,
    title: &str,
    info: &str,
    iw: i32,
    hot: Option<Button>,
    pressed: bool,
    maximized: bool,
) -> (r: (Vec<Op>, i32, i32, i32))
    requires
        dpi <= 0xffff,
        0 <= width,
        0 <= iw,
        width - at_dpi(46, dpi) * 4 - at_dpi(14, dpi) - iw >= i32::MIN,
    ensures
        inks(r.0@) == caption_inks(
            dpi,
            width as int,
            title@,
            info@,
            iw as int,
            hot,
            pressed,
            maximized,
        ),
        r.1 == logo_side(dpi),
        r.2 == at_dpi(10, dpi),
        r.3 == (at_dpi(32, dpi) - logo_side(dpi)) / 2,
{
    let h: i32 = caption_h(dpi);
    let bw: i32 = scaled(BUTTON_W, dpi);
    let side: i32 = scaled(LOGO_PX, dpi);
    let logo: i32 = if side < LOGO_SIDE {
        side
    } else {
        LOGO_SIDE
    };
    let pad: i32 = scaled(10, dpi);
    proof {
        lemma_at_dpi(8, 60, dpi);
        lemma_at_dpi(10, 60, dpi);
        lemma_at_dpi(14, 60, dpi);
        lemma_at_dpi(16, 60, dpi);
        lemma_at_dpi(20, 32, dpi);
        lemma_at_dpi(32, 60, dpi);
        lemma_at_dpi(46, 60, dpi);
        lemma_at_dpi(60, 60, dpi);
    }
    let tx: i32 = pad + logo + scaled(8, dpi);
    let info_r: i32 = width - bw * 4 - scaled(14, dpi);
    let least: i32 = tx + scaled(60, dpi);
    let info_l: i32 = if info_r - iw > least {
        info_r - iw
    } else {
        least
    };
    let title_r: i32 = info_l - scaled(16, dpi);
    let mut v: Vec<Op> = Vec::new();
    assert(inks(v@) =~= seq![]);
    put(&mut v, Op::Fill { r: rect(0, 0, width, h), c: CHROME_BG });
    let ghost ground = inks(v@);
    assert(ground =~= seq![Ink::Fill { r: Rect { left: 0, top: 0, right: width, bottom: h }, c: CHROME_BG }]);
    assert(ground + buttons_inks(0, width as int, dpi, hot, pressed, maximized) =~= ground);
    for k in 0..4usize
        invariant
            dpi <= 0xffff,
            0 <= width,
            bw == at_dpi(46, dpi),
            0 <= bw <= 46 * 683 + 1,
            h == at_dpi(32, dpi),
            inks(v@) == ground + buttons_inks(k as nat, width as int, dpi, hot, pressed, maximized),
    {
        let ghost before = inks(v@);
        let b: Button = BUTTONS[k];
        assert(bw * (4 - k) == bw * (3 - k) + bw) by (nonlinear_arith);
        assert(0 <= bw * (3 - k) <= bw * 3) by (nonlinear_arith)
            requires
                0 <= k < 4,
                bw >= 0,
        ;
        let x: i32 = width - bw * (4 - k as i32);
        let r: Rect = rect(x, 0, x + bw, h);
        assert(r == button_rect(k as int, width as int, dpi));
        let is_hot: bool = match hot {
            Some(x) => x == b,
            None => false,
        };
        if is_hot {
            let c: u32 = if b == Button::Close {
                CLOSE_HOT
            } else if pressed {
                PRESSED
            } else {
                HOVER
            };
            put(&mut v, Op::Fill { r, c });
        }
        let c: u32 = if !is_hot {
            TEXT_DIM
        } else if b == Button::Close {
            WHITE
        } else {
            TEXT_HEAD
        };
        let g: char = match b {
            Button::Settings => '\u{E713}',
            Button::Min => '\u{E921}',
            Button::Max => if maximized {
                '\u{E923}'
            } else {
                '\u{E922}'
            },
            Button::Close => '\u{E8BB}',
        };
        let g = glyph(g);
        write(&mut v, g.as_str(), Font::Icons, c, r, Align::Center, false);
        assert(inks(v@) =~= before + button_inks(
            k as int,
            width as int,
            dpi,
            hot,
            pressed,
            maximized,
        ));
        assert(inks(v@) =~= ground + buttons_inks(
            (k + 1) as nat,
            width as int,
            dpi,
            hot,
            pressed,
            maximized,
        ));
    }
    if info_r > info_l {
        write(
            &mut v,
            info,
            Font::Caption,
            TEXT_DIM,
            rect(info_l, 0, info_r, h),
            Align::Right,
            true,
        );
    }
    if title_r > tx {
        write(&mut v, title, Font::Caption, TEXT, rect(tx, 0, title_r, h), Align::Left, true);
    }
    assert(inks(v@) =~= caption_inks(
        dpi,
        width as int,
        title@,
        info@,
        iw as int,
        hot,
        pressed,
        maximized,
    ));
    let dy: i32 = h - logo;
    assert(dy >= 0);
    (v, logo, pad, dy / 2)
}

/// A rectangle given in lengths that fit.
pub open spec fn box_of(l: int, t: int, r: int, b: int) -> Rect {
    Rect { left: l as i32, top: t as i32, right: r as i32, bottom: b as i32 }
}

/// The two lines of a row of the setup card.
pub open spec fn row_label(item: CardItem) -> Seq<char> {
    match item {
        CardItem::Install => "Install on this PC"@,
        CardItem::Autostart => "Start with Windows"@,
        _ => "Open images with Glint"@,
    }
}

pub open spec fn row_note(item: CardItem) -> Seq<char> {
    match item {
        CardItem::Install => "Programs folder, Start menu, uninstall from Settings"@,
        CardItem::Autostart => "photos open instantly · ~2 MB in memory"@,
        _ => "jpg, png, gif, webp, heic, tiff…"@,
    }
}

/// The size of the card with `n` rows.
pub open spec fn card_size(n: int, dpi: u32) -> (int, int) {
    (at_dpi(460, dpi), at_dpi(166, dpi) + n * at_dpi(48, dpi))
}

/// The row that a click on it turns on or off.
pub open spec fn row_rect(k: int, dpi: u32) -> Rect {
    let top = at_dpi(90, dpi) + k * at_dpi(48, dpi);
    box_of(
        at_dpi(12, dpi),
        top,
        at_dpi(460, dpi) - at_dpi(12, dpi),
        top + at_dpi(44, dpi),
    )
}

/// The buttons of the card with `n` rows.
pub open spec fn apply_rect(n: int, dpi: u32) -> Rect {
    let size = card_size(n, dpi);
    let by = size.1 - at_dpi(24, dpi) - at_dpi(34, dpi);
    box_of(
        size.0 - at_dpi(24, dpi) - at_dpi(120, dpi),
        by,
        size.0 - at_dpi(24, dpi),
        by + at_dpi(34, dpi),
    )
}

pub open spec fn skip_rect(n: int, dpi: u32) -> Rect {
    let a = apply_rect(n, dpi);
    box_of(
        a.left - at_dpi(12, dpi) - at_dpi(90, dpi),
        a.top as int,
        a.left - at_dpi(12, dpi),
        a.bottom as int,
    )
}

/// The box of a row: filled with a check in it, or its rim alone.
pub open spec fn check_inks(bx: Rect, inner: Rect, on: bool, hot: bool, dpi: u32) -> Seq<Ink> {
    if on {
        seq![Ink::Round { r: bx, radius: at_dpi(4, dpi) as i32, c: ACCENT }] + written(
            seq!['\u{E73E}'],
            Font::Check,
            WHITE,
            bx,
            Align::Center,
            false,
        )
    } else {
        seq![
            Ink::Round { r: bx, radius: at_dpi(4, dpi) as i32, c: BOX },
            Ink::Round {
                r: inner,
                radius: at_dpi(3, dpi) as i32,
                c: if hot {
                    BG_ROW_ALT
                } else {
                    BG_PANEL
                },
            },
        ]
    }
}

/// A row: the ground under the pointer, its box, ticked or not, and its two lines.
pub open spec fn row_inks(k: int, item: CardItem, on: bool, hot: bool, dpi: u32) -> Seq<Ink> {
    let top = at_dpi(90, dpi) + k * at_dpi(48, dpi);
    let w = at_dpi(460, dpi);
    let pad = at_dpi(24, dpi);
    let bs = at_dpi(18, dpi);
    let one = at_dpi(1, dpi);
    let t = top + (at_dpi(44, dpi) - bs) / 2;
    let b = top + (at_dpi(44, dpi) + bs) / 2;
    let bx = box_of(pad, t, pad + bs, b);
    let lx = pad + bs + at_dpi(12, dpi);
    (if hot {
        seq![Ink::Round { r: row_rect(k, dpi), radius: at_dpi(6, dpi) as i32, c: BG_ROW_ALT }]
    } else {
        seq![]
    }) + check_inks(
        bx,
        box_of(pad + one, t + one, pad + bs - one, b - one),
        on,
        hot,
        dpi,
    ) + written(
        row_label(item),
        Font::Body,
        TEXT,
        box_of(lx, top + at_dpi(4, dpi), w - pad, top + at_dpi(24, dpi)),
        Align::Left,
        false,
    ) + written(
        row_note(item),
        Font::Body,
        TEXT_DIM,
        box_of(lx, top + at_dpi(22, dpi), w - pad, top + at_dpi(42, dpi)),
        Align::Left,
        true,
    )
}

/// The first `n` rows.
pub open spec fn rows_inks(
    rows: Seq<(CardItem, bool)>,
    n: nat,
    hot: Option<CardItem>,
    dpi: u32,
) -> Seq<Ink>
    decreases n,
{
    if n == 0 {
        seq![]
    } else {
        rows_inks(rows, (n - 1) as nat, hot, dpi) + row_inks(
            n - 1,
            rows[n - 1].0,
            rows[n - 1].1,
            hot == Some(rows[n - 1].0),
            dpi,
        )
    }
}

/// What can be clicked on the card: its rows, then its two buttons.
pub open spec fn card_items(rows: Seq<(CardItem, bool)>, dpi: u32) -> Seq<(CardItem, Rect)> {
    let n = rows.len() as int;
    Seq::new(rows.len(), |k: int| (rows[k].0, row_rect(k, dpi))).push(
        (CardItem::Apply, apply_rect(n, dpi)),
    ).push((CardItem::Skip, skip_rect(n, dpi)))
}

/// The side of the logo on the card.
pub open spec fn card_logo(dpi: u32) -> int {
    if at_dpi(40, dpi) < 64 {
        at_dpi(40, dpi)
    } else {
        64
    }
}

/// The head of the card: the ground, the name and what it is.
pub open spec fn head_inks(n: int, dpi: u32) -> Seq<Ink> {
    let size = card_size(n, dpi);
    let pad = at_dpi(24, dpi);
    let x = pad + card_logo(dpi) + at_dpi(14, dpi);
    seq![Ink::Fill { r: box_of(0, 0, size.0, size.1), c: BG_PANEL }] + written(
        "Glint"@,
        Font::Title,
        TEXT_HEAD,
        box_of(x, at_dpi(22, dpi), size.0 - pad, at_dpi(50, dpi)),
        Align::Left,
        false,
    ) + written(
        "Fast image viewer"@,
        Font::Body,
        TEXT_DIM,
        box_of(x, at_dpi(48, dpi), size.0 - pad, at_dpi(68, dpi)),
        Align::Left,
        false,
    )
}

/// The foot of the card: the two buttons, and the note beside them.
pub open spec fn foot_inks(n: int, hot: Option<CardItem>, note: Seq<char>, dpi: u32) -> Seq<Ink> {
    let six = at_dpi(6, dpi) as i32;
    let apply = apply_rect(n, dpi);
    let skip = skip_rect(n, dpi);
    let on_skip = hot == Some(CardItem::Skip);
    seq![
        Ink::Round {
            r: apply,
            radius: six,
            c: if hot == Some(CardItem::Apply) {
                ACCENT_HOT
            } else {
                ACCENT
            },
        },
    ] + written("Apply"@, Font::Body, WHITE, apply, Align::Center, false) + (if on_skip {
        seq![Ink::Round { r: skip, radius: six, c: BG_ROW_ALT }]
    } else {
        seq![]
    }) + written(
        "Not now"@,
        Font::Body,
        if on_skip {
            TEXT_HEAD
        } else {
            TEXT_DIM
        },
        skip,
        Align::Center,
        false,
    ) + written(
        note,
        Font::Body,
        TEXT_DIM,
        box_of(at_dpi(24, dpi), apply.top as int, skip.left - at_dpi(8, dpi), apply.bottom as int),
        Align::Left,
        true,
    )
}

fn put_check(v: &mut Vec<Op>, bx: Rect, inner: Rect, on: bool, hot: bool, dpi: u32)
    requires
        dpi <= 0xffff,
    ensures
        inks(final(v)@) == inks(old(v)@) + check_inks(bx, inner, on, hot, dpi),
{
    proof {
        lemma_at_dpi(3, 460, dpi);
        lemma_at_dpi(4, 460, dpi);
    }
    if on {
        put(v, Op::Round { r: bx, radius: scaled(4, dpi), c: ACCENT });
        let g = glyph('\u{E73E}');
        write(v, g.as_str(), Font::Check, WHITE, bx, Align::Center, false);
    } else {
        put(v, Op::Round { r: bx, radius: scaled(4, dpi), c: BOX });
        put(
            v,
            Op::Round {
                r: inner,
                radius: scaled(3, dpi),
                c: if hot {
                    BG_ROW_ALT
                } else {
                    BG_PANEL
                },
            },
        );
    }
    assert(inks(v@) =~= inks(old(v)@) + check_inks(bx, inner, on, hot, dpi));
}

fn put_row(v: &mut Vec<Op>, k: i32, item: CardItem, on: bool, hot: bool, dpi: u32)
    requires
        dpi <= 0xffff,
        0 <= k < 0x7fff,
    ensures
        inks(final(v)@) == inks(old(v)@) + row_inks(k as int, item, on, hot, dpi),
{
    proof {
        lemma_at_dpi(1, 460, dpi);
        lemma_at_dpi(4, 460, dpi);
        lemma_at_dpi(6, 460, dpi);
        lemma_at_dpi(12, 460, dpi);
        lemma_at_dpi(18, 44, dpi);
        lemma_at_dpi(22, 460, dpi);
        lemma_at_dpi(24, 460, dpi);
        lemma_at_dpi(42, 460, dpi);
        lemma_at_dpi(44, 460, dpi);
        lemma_at_dpi(48, 460, dpi);
        lemma_at_dpi(90, 460, dpi);
        lemma_at_dpi(460, 460, dpi);
    }
    let w: i32 = scaled(460, dpi);
    let pad: i32 = scaled(24, dpi);
    let step: i32 = scaled(48, dpi);
    assert(0 <= k * step <= 0x7fff * (48 * 683 + 1)) by (nonlinear_arith)
        requires
            0 <= k < 0x7fff,
            0 <= step <= 48 * 683 + 1,
    ;
    let top: i32 = scaled(90, dpi) + k * step;
    let high: i32 = scaled(44, dpi);
    if hot {
        let r: Rect = rect(scaled(12, dpi), top, w - scaled(12, dpi), top + high);
        put(v, Op::Round { r, radius: scaled(6, dpi), c: BG_ROW_ALT });
    }
    let bs: i32 = scaled(18, dpi);
    let t: i32 = top + (high - bs) / 2;
    let b: i32 = top + (high + bs) / 2;
    let bx: Rect = rect(pad, t, pad + bs, b);
    let one: i32 = scaled(1, dpi);
    put_check(v, bx, rect(pad + one, t + one, pad + bs - one, b - one), on, hot, dpi);
    let lx: i32 = pad + bs + scaled(12, dpi);
    let (label, sub): (&str, &str) = match item {
        CardItem::Install => (
            "Install on this PC",
            "Programs folder, Start menu, uninstall from Settings",
        ),
        CardItem::Autostart => ("Start with Windows", "photos open instantly · ~2 MB in memory"),
        _ => ("Open images with Glint", "jpg, png, gif, webp, heic, tiff…"),
    };
    write(
        v,
        label,
        Font::Body,
        TEXT,
        rect(lx, top + scaled(4, dpi), w - pad, top + scaled(24, dpi)),
        Align::Left,
        false,
    );
    write(
        v,
        sub,
        Font::Body,
        TEXT_DIM,
        rect(lx, top + scaled(22, dpi), w - pad, top + scaled(42, dpi)),
        Align::Left,
        true,
    );
    assert(inks(v@) =~= inks(old(v)@) + row_inks(k as int, item, on, hot, dpi));
}

fn size_of_card(n: usize, dpi: u32) -> (r: (i32, i32))
    requires
        dpi <= 0xffff,
        n < 0x7fff,
    ensures
        (r.0 as int, r.1 as int) == card_size(n as int, dpi),
        0 <= r.0 <= 0x10_0000,
        0 <= r.1 <= 0x4100_0000,
{
    proof {
        lemma_at_dpi(48, 460, dpi);
        lemma_at_dpi(166, 460, dpi);
        lemma_at_dpi(460, 460, dpi);
    }
    let step: i32 = scaled(48, dpi);
    assert(0 <= n * step <= 0x7fff * (48 * 683 + 1)) by (nonlinear_arith)
        requires
            0 <= n < 0x7fff,
            0 <= step <= 48 * 683 + 1,
    ;
    (scaled(460, dpi), scaled(166, dpi) + n as i32 * step)
}

fn put_head(v: &mut Vec<Op>, n: usize, dpi: u32)
    requires
        dpi <= 0xffff,
        n < 0x7fff,
    ensures
        inks(final(v)@) == inks(old(v)@) + head_inks(n as int, dpi),
{
    proof {
        lemma_at_dpi(14, 460, dpi);
        lemma_at_dpi(24, 460, dpi);
        lemma_at_dpi(40, 460, dpi);
    }
    let (w, h): (i32, i32) = size_of_card(n, dpi);
    let pad: i32 = scaled(24, dpi);
    let side: i32 = scaled(40, dpi);
    let logo: i32 = if side < LOGO_SIDE {
        side
    } else {
        LOGO_SIDE
    };
    let x: i32 = pad + logo + scaled(14, dpi);
    put(v, Op::Fill { r: rect(0, 0, w, h), c: BG_PANEL });
    write(
        v,
        "Glint",
        Font::Title,
        TEXT_HEAD,
        rect(x, scaled(22, dpi), w - pad, scaled(50, dpi)),
        Align::Left,
        false,
    );
    write(
        v,
        "Fast image viewer",
        Font::Body,
        TEXT_DIM,
        rect(x, scaled(48, dpi), w - pad, scaled(68, dpi)),
        Align::Left,
        false,
    );
    assert(inks(v@) =~= inks(old(v)@) + head_inks(n as int, dpi));
}

fn foot_rects(n: usize, dpi: u32) -> (r: (Rect, Rect))
    requires
        dpi <= 0xffff,
        n < 0x7fff,
    ensures
        r.0 == apply_rect(n as int, dpi),
        r.1 == skip_rect(n as int, dpi),
        r.1.left >= -0x10_0000,
{
    proof {
        lemma_at_dpi(12, 460, dpi);
        lemma_at_dpi(24, 460, dpi);
        lemma_at_dpi(34, 460, dpi);
        lemma_at_dpi(90, 460, dpi);
        lemma_at_dpi(120, 460, dpi);
    }
    let (w, h): (i32, i32) = size_of_card(n, dpi);
    let pad: i32 = scaled(24, dpi);
    let high: i32 = scaled(34, dpi);
    let by: i32 = h - pad - high;
    let apply: Rect = rect(w - pad - scaled(120, dpi), by, w - pad, by + high);
    let end: i32 = apply.left - scaled(12, dpi);
    let skip: Rect = rect(end - scaled(90, dpi), by, end, by + high);
    (apply, skip)
}

fn put_foot(v: &mut Vec<Op>, n: usize, hot: Option<CardItem>, note: &str, dpi: u32)
    requires
        dpi <= 0xffff,
        n < 0x7fff,
    ensures
        inks(final(v)@) == inks(old(v)@) + foot_inks(n as int, hot, note@, dpi),
{
    proof {
        lemma_at_dpi(8, 460, dpi);
    }
    let (apply, skip): (Rect, Rect) = foot_rects(n, dpi);
    let six: i32 = scaled(6, dpi);
    put(
        v,
        Op::Round {
            r: apply,
            radius: six,
            c: match hot {
                Some(CardItem::Apply) => ACCENT_HOT,
                _ => ACCENT,
            },
        },
    );
    write(v, "Apply", Font::Body, WHITE, apply, Align::Center, false);
    let on_skip: bool = match hot {
        Some(CardItem::Skip) => true,
        _ => false,
    };
    if on_skip {
        put(v, Op::Round { r: skip, radius: six, c: BG_ROW_ALT });
    }
    write(
        v,
        "Not now",
        Font::Body,
        if on_skip {
            TEXT_HEAD
        } else {
            TEXT_DIM
        },
        skip,
        Align::Center,
        false,
    );
    write(
        v,
        note,
        Font::Body,
        TEXT_DIM,
        rect(scaled(24, dpi), apply.top, skip.left - scaled(8, dpi), apply.bottom),
        Align::Left,
        true,
    );
    assert(inks(v@) =~= inks(old(v)@) + foot_inks(n as int, hot, note@, dpi));
}

fn rect_of_row(k: usize, dpi: u32) -> (r: Rect)
    requires
        dpi <= 0xffff,
        k < 0x7fff,
    ensures
        r == row_rect(k as int, dpi),
{
    proof {
        lemma_at_dpi(12, 460, dpi);
        lemma_at_dpi(44, 460, dpi);
        lemma_at_dpi(48, 460, dpi);
        lemma_at_dpi(90, 460, dpi);
        lemma_at_dpi(460, 460, dpi);
    }
    let step: i32 = scaled(48, dpi);
    assert(0 <= k * step <= 0x7fff * (48 * 683 + 1)) by (nonlinear_arith)
        requires
            0 <= k < 0x7fff,
            0 <= step <= 48 * 683 + 1,
    ;
    let top: i32 = scaled(90, dpi) + k as i32 * step;
    let edge: i32 = scaled(12, dpi);
    rect(edge, top, scaled(460, dpi) - edge, top + scaled(44, dpi))
}

/// The setup card: what makes the viewer part of Windows, one row each, and one button. Shown once
/// on the first start, and from the gear in the caption. With it the logo's side and place.
pub fn card(
    dpi: u32,
    rows: &Vec<(CardItem, bool)>,
    hot: Option<CardItem>,
    note: &str,
) -> (r: (Panel<CardItem>, i32, i32, i32))
    requires
        dpi <= 0xffff,
        rows@.len() < 0x7fff,
    ensures
        (r.0.w as int, r.0.h as int) == card_size(rows@.len() as int, dpi),
        r.0.items@ == card_items(rows@, dpi),
        inks(r.0.ops@) == head_inks(rows@.len() as int, dpi) + rows_inks(
            rows@,
            rows@.len(),
            hot,
            dpi,
        ) + foot_inks(rows@.len() as int, hot, note@, dpi),
        r.1 == card_logo(dpi),
        r.2 == at_dpi(24, dpi),
        r.3 == at_dpi(24, dpi),
{
    let n: usize = rows.len();
    let (w, h): (i32, i32) = size_of_card(n, dpi);
    let mut v: Vec<Op> = Vec::new();
    assert(inks(v@) =~= seq![]);
    put_head(&mut v, n, dpi);
    let ghost head = head_inks(n as int, dpi);
    assert(inks(v@) =~= head);
    let mut items: Vec<(CardItem, Rect)> = Vec::new();
    assert(head + rows_inks(rows@, 0, hot, dpi) =~= head);
    for k in 0..n
        invariant
            n == rows@.len() < 0x7fff,
            dpi <= 0xffff,
            inks(v@) == head + rows_inks(rows@, k as nat, hot, dpi),
            items@ == Seq::new(k as nat, |k: int| (rows@[k].0, row_rect(k, dpi))),
    {
        let item: CardItem = rows[k].0;
        let is_hot: bool = match hot {
            Some(i) => i == item,
            None => false,
        };
        put_row(&mut v, k as i32, item, rows[k].1, is_hot, dpi);
        assert(inks(v@) =~= head + rows_inks(rows@, (k + 1) as nat, hot, dpi));
        items.push((item, rect_of_row(k, dpi)));
        assert(items@ =~= Seq::new((k + 1) as nat, |k: int| (rows@[k].0, row_rect(k, dpi))));
    }
    put_foot(&mut v, n, hot, note, dpi);
    let (apply, skip): (Rect, Rect) = foot_rects(n, dpi);
    items.push((CardItem::Apply, apply));
    items.push((CardItem::Skip, skip));
    assert(items@ =~= card_items(rows@, dpi));
    let side: i32 = scaled(40, dpi);
    let logo: i32 = if side < LOGO_SIDE {
        side
    } else {
        LOGO_SIDE
    };
    let pad: i32 = scaled(24, dpi);
    (Panel { w, h, ops: v, items }, logo, pad, pad)
}

/// The tools in their order.
pub const TOOLS: [Tool; 9] = [
    Tool::Prev,
    Tool::Next,
    Tool::ZoomOut,
    Tool::ZoomIn,
    Tool::Fit,
    Tool::Actual,
    Tool::Rotate,
    Tool::Fullscreen,
    Tool::Delete,
];

/// The tools that stand in a group of their own with the next: flip, zoom, size, turn, delete.
pub open spec fn starts_group(i: int) -> bool {
    i == 2 || i == 4 || i == 6 || i == 8
}

/// Where a tool starts: after the tools before it, the gaps between the groups, and the zoom level
/// between the two zoom buttons.
pub open spec fn tool_x(i: nat, dpi: u32) -> int
    decreases i,
{
    if i == 0 {
        at_dpi(6, dpi)
    } else {
        tool_x((i - 1) as nat, dpi) + at_dpi(40, dpi) + (if i == 3 {
            at_dpi(52, dpi)
        } else {
            0
        }) + (if starts_group(i as int) {
            at_dpi(13, dpi)
        } else {
            0
        })
    }
}

pub open spec fn tool_rect(i: int, dpi: u32) -> Rect {
    let x = tool_x(i as nat, dpi);
    let pad = at_dpi(6, dpi);
    box_of(x, pad, x + at_dpi(40, dpi), pad + at_dpi(36, dpi))
}

pub open spec fn tool_glyph(t: Tool, fullscreen: bool) -> char {
    match t {
        Tool::Prev => '\u{E76B}',
        Tool::Next => '\u{E76C}',
        Tool::ZoomOut => '\u{E71F}',
        Tool::ZoomIn => '\u{E8A3}',
        Tool::Fit => '\u{E9A6}',
        Tool::Rotate => '\u{E7AD}',
        Tool::Fullscreen => if fullscreen {
            '\u{E73F}'
        } else {
            '\u{E740}'
        },
        _ => '\u{E74D}',
    }
}

/// The size of the bar.
pub open spec fn bar_size(dpi: u32) -> (int, int) {
    (
        at_dpi(6, dpi) * 2 + at_dpi(40, dpi) * 9 + at_dpi(13, dpi) * 4 + at_dpi(52, dpi),
        at_dpi(36, dpi) + at_dpi(6, dpi) * 2,
    )
}

/// A tool: the line before its group, the ground under the pointer, its sign, and the zoom level
/// after the button that zooms out.
pub open spec fn tool_inks(
    i: int,
    hot: Option<Tool>,
    fullscreen: bool,
    zoom: Seq<char>,
    dpi: u32,
) -> Seq<Ink> {
    let t = TOOLS@[i];
    let b = tool_rect(i, dpi);
    let x = tool_x(i as nat, dpi);
    let pad = at_dpi(6, dpi);
    let h = bar_size(dpi).1;
    let line = x - at_dpi(13, dpi) + at_dpi(13, dpi) / 2;
    let is_hot = hot == Some(t);
    let c = if is_hot {
        WHITE
    } else {
        TEXT
    };
    (if starts_group(i) {
        seq![
            Ink::Fill {
                r: box_of(line, pad + at_dpi(8, dpi), line + 1, h - pad - at_dpi(8, dpi)),
                c: LINE,
            },
        ]
    } else {
        seq![]
    }) + (if is_hot {
        seq![
            Ink::Round {
                r: b,
                radius: at_dpi(6, dpi) as i32,
                c: if t == Tool::Delete {
                    CLOSE_HOT
                } else {
                    HOVER_BAR
                },
            },
        ]
    } else {
        seq![]
    }) + (if t == Tool::Actual {
        written("1:1"@, Font::BarText, c, b, Align::Center, false)
    } else {
        written(seq![tool_glyph(t, fullscreen)], Font::BarGlyphs, c, b, Align::Center, false)
    }) + (if t == Tool::ZoomOut {
        written(
            zoom,
            Font::BarText,
            TEXT_DIM,
            box_of(
                x + at_dpi(40, dpi),
                pad,
                x + at_dpi(40, dpi) + at_dpi(52, dpi),
                pad + at_dpi(36, dpi),
            ),
            Align::Center,
            false,
        )
    } else {
        seq![]
    })
}

pub open spec fn tools_inks(
    n: nat,
    hot: Option<Tool>,
    fullscreen: bool,
    zoom: Seq<char>,
    dpi: u32,
) -> Seq<Ink>
    decreases n,
{
    if n == 0 {
        seq![]
    } else {
        tools_inks((n - 1) as nat, hot, fullscreen, zoom, dpi) + tool_inks(
            n - 1,
            hot,
            fullscreen,
            zoom,
            dpi,
        )
    }
}

fn put_tool(v: &mut Vec<Op>, i: usize, x: i32, hot: Option<Tool>, fullscreen: bool, zoom: &str, dpi: u32)
    requires
        dpi <= 0xffff,
        i < 9,
        x == tool_x(i as nat, dpi),
        0 <= x <= 0x100_0000,
    ensures
        inks(final(v)@) == inks(old(v)@) + tool_inks(i as int, hot, fullscreen, zoom@, dpi),
{
    proof {
        lemma_at_dpi(6, 52, dpi);
        lemma_at_dpi(8, 52, dpi);
        lemma_at_dpi(13, 52, dpi);
        lemma_at_dpi(36, 52, dpi);
        lemma_at_dpi(40, 52, dpi);
        lemma_at_dpi(52, 52, dpi);
    }
    let pad: i32 = scaled(6, dpi);
    let bw: i32 = scaled(40, dpi);
    let bh: i32 = scaled(36, dpi);
    let gap: i32 = scaled(13, dpi);
    let h: i32 = bh + pad * 2;
    let t: Tool = TOOLS[i];
    if i == 2 || i == 4 || i == 6 || i == 8 {
        let line: i32 = x - gap + gap / 2;
        let eight: i32 = scaled(8, dpi);
        put(v, Op::Fill { r: rect(line, pad + eight, line + 1, h - pad - eight), c: LINE });
    }
    let b: Rect = rect(x, pad, x + bw, pad + bh);
    let is_hot: bool = match hot {
        Some(y) => y == t,
        None => false,
    };
    if is_hot {
        put(
            v,
            Op::Round {
                r: b,
                radius: pad,
                c: if t == Tool::Delete {
                    CLOSE_HOT
                } else {
                    HOVER_BAR
                },
            },
        );
    }
    let c: u32 = if is_hot {
        WHITE
    } else {
        TEXT
    };
    if t == Tool::Actual {
        write(v, "1:1", Font::BarText, c, b, Align::Center, false);
    } else {
        let g: char = match t {
            Tool::Prev => '\u{E76B}',
            Tool::Next => '\u{E76C}',
            Tool::ZoomOut => '\u{E71F}',
            Tool::ZoomIn => '\u{E8A3}',
            Tool::Fit => '\u{E9A6}',
            Tool::Rotate => '\u{E7AD}',
            Tool::Fullscreen => if fullscreen {
                '\u{E73F}'
            } else {
                '\u{E740}'
            },
            _ => '\u{E74D}',
        };
        let g = glyph(g);
        write(v, g.as_str(), Font::BarGlyphs, c, b, Align::Center, false);
    }
    if t == Tool::ZoomOut {
        write(
            v,
            zoom,
            Font::BarText,
            TEXT_DIM,
            rect(x + bw, pad, x + bw + scaled(52, dpi), pad + bh),
            Align::Center,
            false,
        );
    }
    assert(inks(v@) =~= inks(old(v)@) + tool_inks(i as int, hot, fullscreen, zoom@, dpi));
}

/// The bar at the bottom: flip, zoom, fit, 1:1, turn, fullscreen, delete.
pub fn toolbar(dpi: u32, hot: Option<Tool>, fullscreen: bool, zoom: &str) -> (r: Panel<Tool>)
    requires
        dpi <= 0xffff,
    ensures
        (r.w as int, r.h as int) == bar_size(dpi),
        r.items@ == Seq::new(9, |i: int| (TOOLS@[i], tool_rect(i, dpi))),
        inks(r.ops@) == seq![
            Ink::Fill { r: box_of(0, 0, bar_size(dpi).0, bar_size(dpi).1), c: BG_BAR },
        ] + tools_inks(9, hot, fullscreen, zoom@, dpi),
{
    proof {
        lemma_at_dpi(6, 52, dpi);
        lemma_at_dpi(13, 52, dpi);
        lemma_at_dpi(36, 52, dpi);
        lemma_at_dpi(40, 52, dpi);
        lemma_at_dpi(52, 52, dpi);
    }
    let pad: i32 = scaled(6, dpi);
    let bw: i32 = scaled(40, dpi);
    let bh: i32 = scaled(36, dpi);
    let gap: i32 = scaled(13, dpi);
    let zoom_w: i32 = scaled(52, dpi);
    let w: i32 = pad * 2 + bw * 9 + gap * 4 + zoom_w;
    let h: i32 = bh + pad * 2;
    let mut v: Vec<Op> = Vec::new();
    assert(inks(v@) =~= seq![]);
    put(&mut v, Op::Fill { r: rect(0, 0, w, h), c: BG_BAR });
    let ghost ground = inks(v@);
    assert(ground =~= seq![
        Ink::Fill { r: box_of(0, 0, bar_size(dpi).0, bar_size(dpi).1), c: BG_BAR },
    ]);
    assert(ground + tools_inks(0, hot, fullscreen, zoom@, dpi) =~= ground);
    let mut items: Vec<(Tool, Rect)> = Vec::new();
    let mut x: i32 = pad;
    for i in 0..9usize
        invariant
            dpi <= 0xffff,
            pad == at_dpi(6, dpi),
            bw == at_dpi(40, dpi),
            bh == at_dpi(36, dpi),
            gap == at_dpi(13, dpi),
            zoom_w == at_dpi(52, dpi),
            0 <= pad <= 0x8000,
            0 <= bw <= 0x8000,
            0 <= bh <= 0x8000,
            0 <= gap <= 0x8000,
            0 <= zoom_w <= 0xa000,
            i < 9 ==> x == tool_x(i as nat, dpi),
            0 <= x <= 0x8000 + i * 0x2_0000,
            inks(v@) == ground + tools_inks(i as nat, hot, fullscreen, zoom@, dpi),
            items@ == Seq::new(i as nat, |i: int| (TOOLS@[i], tool_rect(i, dpi))),
    {
        let ghost before = inks(v@);
        put_tool(&mut v, i, x, hot, fullscreen, zoom, dpi);
        assert(inks(v@) =~= ground + tools_inks((i + 1) as nat, hot, fullscreen, zoom@, dpi));
        items.push((TOOLS[i], rect(x, pad, x + bw, pad + bh)));
        assert(items@ =~= Seq::new((i + 1) as nat, |i: int| (TOOLS@[i], tool_rect(i, dpi))));
        x = x + bw;
        if i == 2 {
            x = x + zoom_w;
        }
        if i == 1 || i == 3 || i == 5 || i == 7 {
            x = x + gap;
        }
    }
    Panel { w, h, ops: v, items }
}

/// The tools fill the bar: the last one ends where the padding starts.
pub proof fn law_tools_fill_the_bar(dpi: u32)
    ensures
        tool_x(8, dpi) + at_dpi(40, dpi) + at_dpi(6, dpi) == bar_size(dpi).0,
{
    reveal_with_fuel(tool_x, 9);
}

/// A pill: text `tw` by `th` on a dark ground that is floated over the photo.
pub fn pill(dpi: u32, s: &str, tw: i32, th: i32) -> (r: Panel<()>)
    requires
        dpi <= 0xffff,
        0 <= tw,
        0 <= th,
        tw + at_dpi(12, dpi) * 2 <= i32::MAX,
        th + at_dpi(6, dpi) * 2 <= i32::MAX,
    ensures
        r.w == ({
            let w = tw + at_dpi(12, dpi) * 2;
            if w < 1 {
                1
            } else if w > 8192 {
                8192
            } else {
                w
            }
        }),
        r.h == th + at_dpi(6, dpi) * 2,
        r.items@.len() == 0,
        inks(r.ops@) == seq![Ink::Fill { r: box_of(0, 0, r.w as int, r.h as int), c: BLACK }]
            + written(
            s@,
            Font::Pill,
            WHITE,
            box_of(at_dpi(12, dpi), 0, r.w - at_dpi(12, dpi), r.h as int),
            Align::Left,
            false,
        ),
{
    proof {
        lemma_at_dpi(6, 12, dpi);
        lemma_at_dpi(12, 12, dpi);
    }
    let px: i32 = scaled(12, dpi);
    let py: i32 = scaled(6, dpi);
    let want: i32 = tw + px * 2;
    let w: i32 = if want < 1 {
        1
    } else if want > 8192 {
        8192
    } else {
        want
    };
    let h: i32 = th + py * 2;
    let mut v: Vec<Op> = Vec::new();
    assert(inks(v@) =~= seq![]);
    put(&mut v, Op::Fill { r: rect(0, 0, w, h), c: BLACK });
    assert(inks(v@) =~= seq![Ink::Fill { r: box_of(0, 0, w as int, h as int), c: BLACK }]);
    write(&mut v, s, Font::Pill, WHITE, rect(px, 0, w - px, h), Align::Left, false);
    Panel { w, h, ops: v, items: Vec::new() }
}

/// The size the drawing bitmap has to be made anew at, none where it is large enough. It never
/// shrinks.
pub fn canvas(bw: i32, bh: i32, w: i32, h: i32) -> (r: Option<(i32, i32)>)
    ensures
        r is None <==> w <= bw && h <= bh,
        r matches Some(s) ==> s.0 == (if w > bw {
            w
        } else {
            bw
        }) && s.1 == (if h > bh {
            h
        } else {
            bh
        }),
{
    if w <= bw && h <= bh {
        None
    } else {
        Some(
            (
                if w > bw {
                    w
                } else {
                    bw
                },
                if h > bh {
                    h
                } else {
                    bh
                },
            ),
        )
    }
}

/// A premultiplied colour byte `s` with alpha `a` over `d`, 255 at most.
pub open spec fn over(s: u8, a: u8, d: u8) -> u8 {
    let v = s + (d * (255 - a) + 127) / 255;
    if v > 255 {
        255
    } else {
        v as u8
    }
}

/// A pixel over the one at byte `o`; nothing where that is past the end. The alpha stays.
pub open spec fn pixel_over(dst: Seq<u8>, o: int, s: Seq<u8>) -> Seq<u8> {
    if o + 4 <= dst.len() {
        dst.update(o, over(s[0], s[3], dst[o])).update(
            o + 1,
            over(s[1], s[3], dst[o + 1]),
        ).update(o + 2, over(s[2], s[3], dst[o + 2]))
    } else {
        dst
    }
}

/// The first `n` pixels of a square picture over another, row after row.
pub open spec fn blended(
    dst: Seq<u8>,
    width: int,
    src: Seq<u8>,
    side: int,
    x: int,
    y: int,
    n: nat,
) -> Seq<u8>
    decreases n,
{
    if n == 0 {
        dst
    } else {
        let p = n - 1;
        pixel_over(
            blended(dst, width, src, side, x, y, (n - 1) as nat),
            ((y + p / side) * width + x + p % side) * 4,
            src.subrange(p * 4, p * 4 + 4),
        )
    }
}

fn over_byte(s: u8, a: u8, d: u8) -> (r: u8)
    ensures
        r == over(s, a, d),
{
    assert(0 <= d * (255 - a) <= 255 * 255) by (nonlinear_arith)
        requires
            0 <= d <= 255,
            0 <= a <= 255,
    ;
    let v: u32 = s as u32 + (d as u32 * (255 - a as u32) + 127) / 255;
    if v > 255 {
        255
    } else {
        v as u8
    }
}

/// A premultiplied picture, `side` by `side`, over rows of `width` pixels at (x, y).
pub fn blend(dst: &mut Vec<u8>, width: usize, src: &Vec<u8>, side: usize, x: usize, y: usize)
    requires
        src@.len() == side * side * 4,
        ((y + side) * width + x + side) * 4 + 4 <= usize::MAX,
        side * side * 4 <= usize::MAX,
    ensures
        final(dst)@ == blended(
            old(dst)@,
            width as int,
            src@,
            side as int,
            x as int,
            y as int,
            (side * side) as nat,
        ),
        final(dst)@.len() == old(dst)@.len(),
{
    assert(0 <= side * side) by (nonlinear_arith);
    assert(side > 0 ==> side <= side * side) by (nonlinear_arith)
        requires
            side >= 0,
    ;
    let total: usize = side * side;
    for p in 0..total
        invariant
            total == side * side,
            src@.len() == total * 4,
            total * 4 <= usize::MAX,
            ((y + side) * width + x + side) * 4 + 4 <= usize::MAX,
            dst@ == blended(
                old(dst)@,
                width as int,
                src@,
                side as int,
                x as int,
                y as int,
                p as nat,
            ),
            dst@.len() == old(dst)@.len(),
    {
        proof {
            if side == 0 {
                assert(side * side == 0) by (nonlinear_arith)
                    requires
                        side == 0,
                ;
            }
            vstd::arithmetic::div_mod::lemma_fundamental_div_mod(p as int, side as int);
            vstd::arithmetic::div_mod::lemma_multiply_divide_lt(p as int, side as int, side as int);
            let q = p as int / side as int;
            assert(0 <= q < side);
            assert(0 <= (y + q) * width <= (y + side) * width) by (nonlinear_arith)
                requires
                    0 <= q < side,
                    0 <= y,
                    0 <= width,
            ;
            assert(y + q <= (y + q) * width || width == 0) by (nonlinear_arith)
                requires
                    0 <= q,
                    0 <= y,
                    0 <= width,
            ;
        }
        let sy: usize = p / side;
        let sx: usize = p % side;
        let o: usize = offset(width, x, y, side, sx, sy);
        let len: usize = dst.len();
        let ghost was = dst@;
        let ghost s = src@.subrange(p * 4, p * 4 + 4);
        assert(s[0] == src@[p * 4] && s[1] == src@[p * 4 + 1] && s[2] == src@[p * 4 + 2] && s[3]
            == src@[p * 4 + 3]);
        if len >= 4 && o <= len - 4 {
            let a: u8 = src[p * 4 + 3];
            let v0: u8 = over_byte(src[p * 4], a, dst[o]);
            let v1: u8 = over_byte(src[p * 4 + 1], a, dst[o + 1]);
            let v2: u8 = over_byte(src[p * 4 + 2], a, dst[o + 2]);
            dst.set(o, v0);
            dst.set(o + 1, v1);
            dst.set(o + 2, v2);
        }
        assert(dst@ =~= pixel_over(was, o as int, s));
    }
}

fn offset(width: usize, x: usize, y: usize, side: usize, sx: usize, sy: usize) -> (o: usize)
    requires
        sx < side,
        sy < side,
        ((y + side) * width + x + side) * 4 + 4 <= usize::MAX,
    ensures
        o == ((y + sy) * width + x + sx) * 4,
        o + 4 <= usize::MAX,
{
    assert(0 <= (y + sy) * width <= (y + side) * width) by (nonlinear_arith)
        requires
            0 <= sy < side,
            0 <= y,
            0 <= width,
    ;
    if width == 0 {
        assert((y + sy) * width == 0) by (nonlinear_arith)
            requires
                width == 0,
        ;
        return (x + sx) * 4;
    }
    assert(y + sy <= (y + sy) * width) by (nonlinear_arith)
        requires
            0 <= sy,
            0 <= y,
            1 <= width,
    ;
    ((y + sy) * width + x + sx) * 4
}

/// Drawing a wholly clear picture changes nothing; drawing an opaque one replaces.
pub proof fn law_over(s: u8, d: u8)
    ensures
        over(0, 0, d) == d,
        over(s, 255, d) == s,
{
}

/// A length at a dpi is the nearest to its share of the standard one: the same at 96, twice that at 192.
pub proof fn law_lengths_scale(v: int, dpi: u32)
    requires
        0 <= v,
    ensures
        at_dpi(v, 96) == v,
        at_dpi(v, 192) == 2 * v,
        -48 <= 96 * at_dpi(v, dpi) - v * dpi <= 48,
{
}

/// The caption buttons stand at the right end: close in the corner, left of it the one that maximises,
/// then the one that minimises, and the settings; each as wide and as high as the others.
pub proof fn law_buttons_in_order(x: int, y: int, width: int, dpi: u32)
    requires
        dpi <= 0xffff,
        0 <= width <= i32::MAX,
    ensures
        ({
            let bw = at_dpi(46, dpi);
            let b = button_under(x, y, width, dpi);
            let high = 0 <= y < at_dpi(32, dpi);
            &&& b == Some(Button::Close) <==> high && width - bw <= x < width
            &&& b == Some(Button::Max) <==> high && width - 2 * bw <= x < width - bw
            &&& b == Some(Button::Min) <==> high && width - 3 * bw <= x < width - 2 * bw
            &&& b == Some(Button::Settings) <==> high && width - 4 * bw <= x < width - 3 * bw
            &&& b is None <==> !high || x < width - 4 * bw || x >= width
        }),
{
    lemma_at_dpi(46, 46, dpi);
    lemma_at_dpi(32, 32, dpi);
    let bw = at_dpi(46, dpi);
    assert(bw * (4 - 0) == bw * 4 && bw * (4 - 1) == bw * 3 && bw * (4 - 2) == bw * 2 && bw * (4 - 3)
        == bw && bw * (3 - 0) == bw * 3 && bw * (3 - 1) == bw * 2 && bw * (3 - 2) == bw && bw * (3
        - 3) == 0);
}

/// The info ends before the buttons, as wide as it is or as there is room for, and leaves the file name
/// its first letters.
pub proof fn law_info_before_buttons(width: int, dpi: u32, iw: int)
    requires
        0 <= width,
        0 <= iw,
    ensures
        ({
            let s = info_span(width, dpi, iw);
            let buttons = width - 4 * at_dpi(46, dpi);
            &&& s.1 + at_dpi(14, dpi) == buttons
            &&& s.0 >= title_x(dpi) + at_dpi(60, dpi)
            &&& s.1 - s.0 <= iw
            &&& s.1 - iw >= title_x(dpi) + at_dpi(60, dpi) ==> s.1 - s.0 == iw
        }),
{
}

/// The parts of the setup card stand apart on it: the rows under one another, the two buttons under the
/// rows, side by side at the right.
pub proof fn law_card_parts_apart(n: int, k: int, dpi: u32)
    requires
        96 <= dpi <= 0xffff,
        0 <= k < n <= 3,
    ensures
        ({
            let row = row_rect(k, dpi);
            let next = row_rect(k + 1, dpi);
            let (w, h) = card_size(n, dpi);
            let (apply, skip) = (apply_rect(n, dpi), skip_rect(n, dpi));
            &&& 0 < row.left < row.right < w && row.left == w - row.right
            &&& 0 < row.top < row.bottom <= next.top
            &&& row.bottom < apply.top < apply.bottom < h
            &&& skip.top == apply.top && skip.bottom == apply.bottom
            &&& 0 < skip.left < skip.right < apply.left < apply.right < w
        }),
{
    lemma_at_dpi(12, 460, dpi);
    lemma_at_dpi(44, 460, dpi);
    lemma_at_dpi(48, 460, dpi);
    lemma_at_dpi(90, 460, dpi);
    lemma_at_dpi(166, 460, dpi);
    lemma_at_dpi(24, 460, dpi);
    lemma_at_dpi(34, 460, dpi);
    lemma_at_dpi(120, 460, dpi);
    lemma_at_dpi(460, 460, dpi);
    let s = at_dpi(48, dpi);
    assert(0 * s == 0 && 1 * s == s && 2 * s == s + s && 3 * s == s + s + s && 4 * s == s + s + s + s);
}

/// A click on a row is for that row.
pub proof fn law_row_is_clicked(rows: Seq<(CardItem, bool)>, k: int, x: int, y: int, dpi: u32)
    requires
        96 <= dpi <= 0xffff,
        0 <= k < rows.len() <= 3,
        row_rect(k, dpi).holds(x, y),
    ensures
        part_at(card_items(rows, dpi), x, y) == Some(rows[k].0),
{
    let items = card_items(rows, dpi);
    let n = rows.len() as int;
    lemma_part_at(items, x, y);
    assert(items[k] == (rows[k].0, row_rect(k, dpi)));
    assert forall|i: int| 0 <= i < items.len() && i != k implies !(#[trigger] items[i]).1.holds(x, y) by {
        law_card_parts_apart(n, k, dpi);
        if i < n {
            assert(items[i] == (rows[i].0, row_rect(i, dpi)));
            law_card_parts_apart(n, i, dpi);
            lemma_rows_apart(i, k, dpi);
        }
    }
    assert(part_at(items, x, y) is Some);
}

proof fn lemma_rows_apart(i: int, k: int, dpi: u32)
    requires
        96 <= dpi <= 0xffff,
        0 <= i < 3,
        0 <= k < 3,
        i != k,
    ensures
        row_rect(i, dpi).bottom <= row_rect(k, dpi).top || row_rect(k, dpi).bottom <= row_rect(i, dpi).top,
{
    law_card_parts_apart(3, 0, dpi);
    law_card_parts_apart(3, 1, dpi);
    law_card_parts_apart(3, 2, dpi);
}

/// The tools stand side by side on the bar, in groups: flipping, zooming, with room for the zoom level
/// between the two, the sizes, turning and fullscreen, and deleting.
pub proof fn law_tools_apart(i: int, dpi: u32)
    requires
        dpi <= 0xffff,
        0 <= i < 8,
    ensures
        ({
            let (a, b) = (tool_rect(i, dpi), tool_rect(i + 1, dpi));
            let (w, h) = bar_size(dpi);
            let group = i == 1 || i == 3 || i == 5 || i == 7;
            &&& a.right - a.left == at_dpi(40, dpi) && b.right - b.left == at_dpi(40, dpi)
            &&& b.left - a.right == (if group {
                at_dpi(13, dpi)
            } else if i == 2 {
                at_dpi(52, dpi)
            } else {
                0
            })
            &&& a.top == b.top && a.bottom == b.bottom && a.top == h - a.bottom
            &&& 0 <= a.left && b.right <= w
        }),
        TOOLS@ =~= seq![
            Tool::Prev,
            Tool::Next,
            Tool::ZoomOut,
            Tool::ZoomIn,
            Tool::Fit,
            Tool::Actual,
            Tool::Rotate,
            Tool::Fullscreen,
            Tool::Delete,
        ],
{
    lemma_at_dpi(6, 52, dpi);
    lemma_at_dpi(13, 52, dpi);
    lemma_at_dpi(36, 52, dpi);
    lemma_at_dpi(40, 52, dpi);
    lemma_at_dpi(52, 52, dpi);
    reveal_with_fuel(tool_x, 9);
}

/// What shows of what is under a premultiplied colour is its share of what the alpha leaves, rounded to
/// the nearest, but for what would be brighter than white.
pub proof fn law_over_share(s: u8, a: u8, d: u8)
    ensures
        over(s, a, d) < 255 ==> -127 <= 255 * (over(s, a, d) - s) - d * (255 - a) <= 127,
        over(s, a, d) == 255 ==> 255 * (255 - s) <= d * (255 - a) + 127,
{
    let m = d * (255 - a);
    assert(0 <= m) by (nonlinear_arith)
        requires
            m == d * (255 - a),
            0 <= d,
            a <= 255,
    ;
}

/// Where pixel (i, j) of a picture goes that is put over rows of `width` at (x, y).
spec fn goes_to(width: int, x: int, y: int, i: int, j: int) -> int {
    4 * ((y + j) * width + (x + i))
}

proof fn lemma_one_place(width: int, side: int, x: int, y: int, i: int, j: int, p: int)
    requires
        0 <= i < side,
        0 <= j < side,
        0 <= x,
        0 <= y,
        x + side <= width,
        0 <= p < side * side,
    ensures
        ({
            let o = ((y + p / side) * width + x + p % side) * 4;
            &&& p == j * side + i ==> o == goes_to(width, x, y, i, j)
            &&& p != j * side + i ==> o + 4 <= goes_to(width, x, y, i, j) || goes_to(width, x, y, i, j) + 4
                <= o
            &&& 0 <= o
        }),
{
    let (q, r) = (p / side, p % side);
    vstd::arithmetic::div_mod::lemma_fundamental_div_mod(p, side);
    vstd::arithmetic::div_mod::lemma_multiply_divide_lt(p, side, side);
    assert(0 <= (y + q) * width) by (nonlinear_arith)
        requires
            0 <= y + q,
            0 <= width,
    ;
    assert(side * q == q * side) by (nonlinear_arith);
    if p == j * side + i {
        assert(q == j && r == i) by {
            vstd::arithmetic::div_mod::lemma_fundamental_div_mod_converse(p, side, j, i);
        }
    } else if q < j {
        assert((y + q) * width + width <= (y + j) * width) by (nonlinear_arith)
            requires
                q < j,
                0 <= width,
        ;
    } else if q > j {
        assert((y + j) * width + width <= (y + q) * width) by (nonlinear_arith)
            requires
                j < q,
                0 <= width,
        ;
    } else {
        assert(r != i);
    }
}

/// A picture put over another covers each pixel with its own one at that place, and leaves its alpha; the
/// pixels beside it stay as they are.
pub proof fn law_blended(
    dst: Seq<u8>,
    width: int,
    src: Seq<u8>,
    side: int,
    x: int,
    y: int,
    i: int,
    j: int,
    n: nat,
)
    requires
        0 <= i < side,
        0 <= j < side,
        0 <= x,
        0 <= y,
        x + side <= width,
        n <= side * side,
        src.len() == side * side * 4,
        4 * ((y + j) * width + (x + i)) + 4 <= dst.len(),
    ensures
        ({
            let b = blended(dst, width, src, side, x, y, n);
            let o = 4 * ((y + j) * width + (x + i));
            let p = j * side + i;
            let done = p < n;
            &&& b.len() == dst.len()
            &&& b[o + 3] == dst[o + 3]
            &&& done ==> b[o] == over(src[4 * p], src[4 * p + 3], dst[o])
            &&& done ==> b[o + 1] == over(src[4 * p + 1], src[4 * p + 3], dst[o + 1])
            &&& done ==> b[o + 2] == over(src[4 * p + 2], src[4 * p + 3], dst[o + 2])
            &&& !done ==> b[o] == dst[o] && b[o + 1] == dst[o + 1] && b[o + 2] == dst[o + 2]
        }),
    decreases n,
{
    assert(0 <= (y + j) * width) by (nonlinear_arith)
        requires
            0 <= y + j,
            0 <= width,
    ;
    if n > 0 {
        law_blended(dst, width, src, side, x, y, i, j, (n - 1) as nat);
        let p = n - 1;
        lemma_one_place(width, side, x, y, i, j, p);
        let s = src.subrange(p * 4, p * 4 + 4);
        assert(s[0] == src[p * 4] && s[1] == src[p * 4 + 1] && s[2] == src[p * 4 + 2] && s[3] == src[p * 4
            + 3]);
    }
}

/// What is not under the picture stays.
pub proof fn law_beside_stays(
    dst: Seq<u8>,
    width: int,
    src: Seq<u8>,
    side: int,
    x: int,
    y: int,
    at: int,
    n: nat,
)
    requires
        0 < side,
        0 <= x,
        0 <= y,
        x + side <= width,
        n <= side * side,
        0 <= at < dst.len(),
        at < 4 * (y * width + x) || at >= 4 * ((y + side - 1) * width + x + side),
    ensures
        blended(dst, width, src, side, x, y, n).len() == dst.len(),
        blended(dst, width, src, side, x, y, n)[at] == dst[at],
    decreases n,
{
    if n > 0 {
        law_beside_stays(dst, width, src, side, x, y, at, (n - 1) as nat);
        let p = n - 1;
        let (q, r) = (p / side, p % side);
        vstd::arithmetic::div_mod::lemma_fundamental_div_mod(p, side);
        vstd::arithmetic::div_mod::lemma_multiply_divide_lt(p, side, side);
        assert(0 <= y * width <= (y + q) * width <= (y + side - 1) * width) by (nonlinear_arith)
            requires
                0 <= q <= side - 1,
                0 <= y,
                0 <= width,
        ;
    }
}

/// What the rows of the setup card say, each of its own.
pub proof fn law_card_words()
    ensures
        row_label(CardItem::Install) == "Install on this PC"@,
        row_label(CardItem::Autostart) == "Start with Windows"@,
        row_label(CardItem::Default) == "Open images with Glint"@,
        row_note(CardItem::Install) == "Programs folder, Start menu, uninstall from Settings"@,
        row_note(CardItem::Autostart) == "photos open instantly · ~2 MB in memory"@,
        row_note(CardItem::Default) == "jpg, png, gif, webp, heic, tiff…"@,
{
}

/// A box that is ticked is filled and has a check in it; one that is not is a rim, and has none.
pub proof fn law_ticked(bx: Rect, inner: Rect, hot: bool, dpi: u32)
    ensures
        ({
            let on = check_inks(bx, inner, true, hot, dpi);
            let off = check_inks(bx, inner, false, hot, dpi);
            &&& on.len() == 2 && on[0] is Round && on[0]->Round_r == bx && on[1] is Text && on[1]->Text_r == bx
            &&& off.len() == 2 && off[0] is Round && off[0]->Round_r == bx && off[1] is Round
                && off[1]->Round_r == inner
            &&& on[0]->Round_c != off[0]->Round_c
        }),
{
}

/// A caption button shows its own sign in its own place, and a ground under it only where the pointer is
/// over it: red for the one that closes.
pub proof fn law_button_drawn(
    k: int,
    width: int,
    dpi: u32,
    hot: Option<Button>,
    pressed: bool,
    maximized: bool,
)
    requires
        0 <= k < 4,
    ensures
        ({
            let b = BUTTONS@[k];
            let v = button_inks(k, width, dpi, hot, pressed, maximized);
            let over = hot == Some(b);
            &&& v.len() == (if over {
                2int
            } else {
                1
            })
            &&& v.last() is Text && v.last()->s == seq![button_glyph(b, maximized)] && v.last()->Text_r
                == button_rect(k, width, dpi)
            &&& over ==> v[0] is Fill && v[0]->Fill_r == button_rect(k, width, dpi)
            &&& over && k == 3 ==> v[0]->Fill_c == 0xc42b1c
            &&& over && k < 3 ==> v[0]->Fill_c != 0xc42b1c
        }),
        BUTTONS@ =~= seq![Button::Settings, Button::Min, Button::Max, Button::Close],
        button_glyph(Button::Settings, maximized) == '\u{E713}',
        button_glyph(Button::Min, maximized) == '\u{E921}',
        button_glyph(Button::Close, maximized) == '\u{E8BB}',
        button_glyph(Button::Max, true) == '\u{E923}',
        button_glyph(Button::Max, false) == '\u{E922}',
{
}

/// The signs of the tools.
pub proof fn law_tool_signs(fullscreen: bool)
    ensures
        tool_glyph(Tool::Prev, fullscreen) == '\u{E76B}',
        tool_glyph(Tool::Next, fullscreen) == '\u{E76C}',
        tool_glyph(Tool::ZoomOut, fullscreen) == '\u{E71F}',
        tool_glyph(Tool::ZoomIn, fullscreen) == '\u{E8A3}',
        tool_glyph(Tool::Fit, fullscreen) == '\u{E9A6}',
        tool_glyph(Tool::Rotate, fullscreen) == '\u{E7AD}',
        tool_glyph(Tool::Fullscreen, true) == '\u{E73F}',
        tool_glyph(Tool::Fullscreen, false) == '\u{E740}',
        tool_glyph(Tool::Delete, fullscreen) == '\u{E74D}',
{
}

/// A tool is drawn in its own place, brighter and on a ground where the pointer is over it, red for the one
/// that deletes; the zoom level stands beside the one that zooms out, and only there.
pub proof fn law_tool_drawn(i: int, hot: Option<Tool>, fullscreen: bool, zoom: Seq<char>, dpi: u32)
    requires
        0 <= i < 9,
        zoom.len() > 0,
    ensures
        ({
            let t = TOOLS@[i];
            let v = tool_inks(i, hot, fullscreen, zoom, dpi);
            let b = tool_rect(i, dpi);
            let line = if i == 2 || i == 4 || i == 6 || i == 8 {
                1int
            } else {
                0
            };
            let over = if hot == Some(t) {
                1int
            } else {
                0
            };
            let at = line + over;
            &&& v.len() == at + 1 + (if t == Tool::ZoomOut {
                1int
            } else {
                0
            })
            &&& v[at] is Text && v[at]->Text_r == b
            &&& t != Tool::Actual ==> v[at]->s == seq![tool_glyph(t, fullscreen)]
            &&& t == Tool::Actual ==> v[at]->s == "1:1"@
            &&& over == 1 ==> v[line] is Round && v[line]->Round_r == b && v[at]->Text_c == 0xffffff
            &&& over == 1 ==> (v[line]->Round_c == 0xc42b1c <==> t == Tool::Delete)
            &&& over == 0 ==> v[at]->Text_c != 0xffffff
            &&& t == Tool::ZoomOut ==> v.last() is Text && v.last()->s == zoom
        }),
{
    reveal_strlit("1:1");
}

/// The two buttons of the card are labelled where they are clicked, and the note stands left of them.
pub proof fn law_foot_drawn(n: int, hot: Option<CardItem>, note: Seq<char>, dpi: u32)
    requires
        note.len() > 0,
    ensures
        ({
            let v = foot_inks(n, hot, note, dpi);
            let (apply, skip) = (apply_rect(n, dpi), skip_rect(n, dpi));
            let over = if hot == Some(CardItem::Skip) {
                1int
            } else {
                0
            };
            &&& v.len() == 4 + over
            &&& v[0] is Round && v[0]->Round_r == apply
            &&& v[1] is Text && v[1]->s == "Apply"@ && v[1]->Text_r == apply
            &&& v[2 + over] is Text && v[2 + over]->s == "Not now"@ && v[2 + over]->Text_r == skip
            &&& over == 1 ==> v[2] is Round && v[2]->Round_r == skip
            &&& v.last() is Text && v.last()->s == note
            &&& (v[0]->Round_c == 0x4a9ae4) <==> hot == Some(CardItem::Apply)
        }),
{
    reveal_strlit("Apply");
    reveal_strlit("Not now");
}

/// The sizes on the setup card at the standard resolution, and in proportion at any other: rows 44 high,
/// 48 apart, from 90 down and 12 from the sides; the buttons 34 high, 120 and 90 wide, 12 apart and 24
/// from the corner.
pub proof fn law_card_sizes(n: int, k: int, dpi: u32)
    requires
        dpi <= 0xffff,
        0 <= k < n <= 3,
    ensures
        ({
            let (row, next) = (row_rect(k, dpi), row_rect(k + 1, dpi));
            let (w, h) = card_size(n, dpi);
            let (apply, skip) = (apply_rect(n, dpi), skip_rect(n, dpi));
            &&& w == at_dpi(460, dpi)
            &&& row_rect(0, dpi).top == at_dpi(90, dpi)
            &&& row.bottom - row.top == at_dpi(44, dpi)
            &&& next.top - row.top == at_dpi(48, dpi)
            &&& row.left == at_dpi(12, dpi) && w - row.right == at_dpi(12, dpi)
            &&& apply.right - apply.left == at_dpi(120, dpi)
            &&& skip.right - skip.left == at_dpi(90, dpi)
            &&& apply.bottom - apply.top == at_dpi(34, dpi)
            &&& apply.left - skip.right == at_dpi(12, dpi)
            &&& w - apply.right == at_dpi(24, dpi) && h - apply.bottom == at_dpi(24, dpi)
        }),
{
    lemma_at_dpi(12, 460, dpi);
    lemma_at_dpi(44, 460, dpi);
    lemma_at_dpi(48, 460, dpi);
    lemma_at_dpi(90, 460, dpi);
    lemma_at_dpi(166, 460, dpi);
    lemma_at_dpi(24, 460, dpi);
    lemma_at_dpi(34, 460, dpi);
    lemma_at_dpi(120, 460, dpi);
    lemma_at_dpi(460, 460, dpi);
    let s = at_dpi(48, dpi);
    assert(0 * s == 0 && 1 * s == s && 2 * s == s + s && 3 * s == s + s + s);
}

/// The file name starts behind the logo, which is as large as the caption allows and never larger than it
/// was drawn.
pub proof fn law_title_behind_logo(dpi: u32)
    requires
        dpi <= 0xffff,
    ensures
        logo_side(dpi) <= 64 && logo_side(dpi) <= at_dpi(20, dpi),
        logo_side(dpi) == 64 || logo_side(dpi) == at_dpi(20, dpi),
        card_logo(dpi) <= 64 && card_logo(dpi) <= at_dpi(40, dpi),
        card_logo(dpi) == 64 || card_logo(dpi) == at_dpi(40, dpi),
        title_x(dpi) - logo_side(dpi) == at_dpi(10, dpi) + at_dpi(8, dpi),
        title_x(dpi) >= logo_side(dpi),
{
    lemma_at_dpi(10, 10, dpi);
    lemma_at_dpi(8, 8, dpi);
}

/// How large the letters are at the standard resolution.
pub proof fn law_fonts(f: Font)
    ensures
        f == Font::Title ==> font_size(f) == 20,
        f == Font::BarGlyphs ==> font_size(f) == 16,
        f == Font::Check ==> font_size(f) == 12,
        f == Font::Icons ==> font_size(f) == 10,
        f == Font::Caption || f == Font::BarText || f == Font::Body || f == Font::Pill ==> font_size(f) == 13,
{
}

/// Every tool of the bar is drawn.
pub proof fn law_every_tool_drawn(n: nat, k: int, hot: Option<Tool>, full: bool, zoom: Seq<char>, dpi: u32)
    requires
        0 <= k < n <= 9,
    ensures
        exists|at: int|
            0 <= at && at + tool_inks(k, hot, full, zoom, dpi).len() <= tools_inks(n, hot, full, zoom, dpi).len()
                && #[trigger] tools_inks(n, hot, full, zoom, dpi).subrange(
                at,
                at + tool_inks(k, hot, full, zoom, dpi).len(),
            ) == tool_inks(k, hot, full, zoom, dpi),
    decreases n,
{
    let all = tools_inks(n, hot, full, zoom, dpi);
    let one = tool_inks(k, hot, full, zoom, dpi);
    let before = tools_inks((n - 1) as nat, hot, full, zoom, dpi);
    if k == n - 1 {
        let at = before.len() as int;
        assert(all.subrange(at, at + one.len()) =~= one);
    } else {
        law_every_tool_drawn((n - 1) as nat, k, hot, full, zoom, dpi);
        let at = choose|at: int|
            0 <= at && at + one.len() <= before.len() && #[trigger] before.subrange(at, at + one.len()) == one;
        assert(all.subrange(at, at + one.len()) =~= before.subrange(at, at + one.len()));
    }
}

/// Every row of the card is drawn, with its own tick, and marked where the pointer is over it.
pub proof fn law_every_row_drawn(rows: Seq<(CardItem, bool)>, n: nat, k: int, hot: Option<CardItem>, dpi: u32)
    requires
        0 <= k < n <= rows.len(),
    ensures
        ({
            let all = rows_inks(rows, n, hot, dpi);
            let one = row_inks(k, rows[k].0, rows[k].1, hot == Some(rows[k].0), dpi);
            exists|at: int|
                0 <= at && at + one.len() <= all.len() && #[trigger] all.subrange(at, at + one.len()) == one
        }),
    decreases n,
{
    let all = rows_inks(rows, n, hot, dpi);
    let one = row_inks(k, rows[k].0, rows[k].1, hot == Some(rows[k].0), dpi);
    let before = rows_inks(rows, (n - 1) as nat, hot, dpi);
    if k == n - 1 {
        let at = before.len() as int;
        assert(all.subrange(at, at + one.len()) =~= one);
    } else {
        law_every_row_drawn(rows, (n - 1) as nat, k, hot, dpi);
        let at = choose|at: int|
            0 <= at && at + one.len() <= before.len() && #[trigger] before.subrange(at, at + one.len()) == one;
        assert(all.subrange(at, at + one.len()) =~= before.subrange(at, at + one.len()));
    }
}

/// Every caption button is drawn.
pub proof fn law_every_button_drawn(
    n: nat,
    k: int,
    width: int,
    dpi: u32,
    hot: Option<Button>,
    pressed: bool,
    max: bool,
)
    requires
        0 <= k < n <= 4,
    ensures
        ({
            let all = buttons_inks(n, width, dpi, hot, pressed, max);
            let one = button_inks(k, width, dpi, hot, pressed, max);
            exists|at: int|
                0 <= at && at + one.len() <= all.len() && #[trigger] all.subrange(at, at + one.len()) == one
        }),
    decreases n,
{
    let all = buttons_inks(n, width, dpi, hot, pressed, max);
    let one = button_inks(k, width, dpi, hot, pressed, max);
    let before = buttons_inks((n - 1) as nat, width, dpi, hot, pressed, max);
    if k == n - 1 {
        let at = before.len() as int;
        assert(all.subrange(at, at + one.len()) =~= one);
    } else {
        law_every_button_drawn((n - 1) as nat, k, width, dpi, hot, pressed, max);
        let at = choose|at: int|
            0 <= at && at + one.len() <= before.len() && #[trigger] before.subrange(at, at + one.len()) == one;
        assert(all.subrange(at, at + one.len()) =~= before.subrange(at, at + one.len()));
    }
}

} // verus!
