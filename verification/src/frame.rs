//! What a frame says and what it is made of: the caption, the photo, the pill, the bar and the setup
//! card, each drawn again only when what it shows has changed.

use crate::app::{cur_name, App, BarKey, CaptionKey};
use crate::config::Rgb;
use crate::geom::{half, half_of, rect, Rect};
use crate::input::{same_button, same_tool, Card, Point, Ui};
use crate::text::{cat2, cat3, chars_of, decimal, decimal_of, join, joined, said, same};
use crate::turn::{quarters, exif, uv_transform, Turn};
use crate::ui::{
    at_dpi, buttons_w, caption_h, scaled, Button, CardItem, Tool,
};
use vstd::prelude::*;

verus! {

/// The nearest whole number to a quotient, the even one where two are as near.
pub open spec fn nearest(n: int, d: int) -> int {
    let q = n / d;
    let r = n % d;
    if 2 * r > d || (2 * r == d && q % 2 == 1) {
        q + 1
    } else {
        q
    }
}

fn nearest_of(n: u128, d: u128) -> (r: u128)
    requires
        0 < d <= u64::MAX,
        n <= u64::MAX * 16,
    ensures
        r == nearest(n as int, d as int),
        r <= n + 1,
{
    let q: u128 = n / d;
    let m: u128 = n % d;
    assert(q <= n) by (nonlinear_arith)
        requires
            q == n / d,
            d > 0,
    ;
    if 2 * m > d || (2 * m == d && q % 2 == 1) {
        q + 1
    } else {
        q
    }
}

/// How far apart the numbers of this size are that 53 bits can tell apart.
pub open spec fn unit(n: nat) -> nat
    decreases n,
{
    if n < 0x20_0000_0000_0000 {
        1
    } else {
        2 * unit(n / 2)
    }
}

/// The nearest number of 53 bits and a power of two: a double holds no more of a number.
pub open spec fn as_double(n: nat) -> int {
    nearest(n as int, unit(n) as int) * unit(n)
}

fn unit_of(n: u64) -> (r: u64)
    ensures
        r == unit(n as nat),
        1 <= r <= 0x1000,
{
    let mut m: u64 = n;
    let mut u: u64 = 1;
    assert(1 * unit(n as nat) == unit(n as nat));
    while m >= 0x20_0000_0000_0000
        invariant
            u * unit(m as nat) == unit(n as nat),
            1 <= u <= 0x1000,
            u * m <= u64::MAX,
        decreases m,
    {
        assert(u * unit(m as nat) == (u * 2) * unit((m / 2) as nat)) by (nonlinear_arith)
            requires
                unit(m as nat) == 2 * unit((m / 2) as nat),
        ;
        assert((u * 2) * (m / 2) <= u * m) by (nonlinear_arith)
            requires
                (m / 2) * 2 <= m,
                1 <= u,
        ;
        assert(u <= 0x800) by (nonlinear_arith)
            requires
                u * m <= u64::MAX,
                m >= 0x20_0000_0000_0000,
        ;
        u = u * 2;
        m = m / 2;
    }
    proof {
        assert(u * 1 == u) by (nonlinear_arith);
    }
    u
}

fn double_of(n: u64) -> (r: u128)
    ensures
        r == as_double(n as nat),
        r <= n + 0x1000,
{
    let u: u64 = unit_of(n);
    let q: u128 = nearest_of(n as u128, u as u128);
    proof {
        let qi = n as int / u as int;
        vstd::arithmetic::div_mod::lemma_fundamental_div_mod(n as int, u as int);
        assert(qi <= q <= qi + 1);
        assert(q * u <= (qi + 1) * u && qi * u <= q * u) by (nonlinear_arith)
            requires
                qi <= q <= qi + 1,
                u >= 1,
        ;
        assert((qi + 1) * u == u * qi + u && qi * u == u * qi) by (nonlinear_arith);
    }
    q * u as u128
}

/// A file's size in words: megabytes with one decimal from one megabyte on, else kilobytes; of the
/// size as a double holds it.
pub open spec fn size_words(n: int) -> Seq<char> {
    let d = as_double(n as nat);
    if d >= 0x10_0000 {
        let t = nearest(d * 10, 0x10_0000);
        decimal((t / 10) as nat) + "."@ + decimal((t % 10) as nat) + " MB"@
    } else {
        decimal(nearest(d, 1024) as nat) + " KB"@
    }
}

pub fn size_text(n: u64) -> (s: String)
    ensures
        s@ == size_words(n as int),
{
    let d: u128 = double_of(n);
    if d >= 0x10_0000 {
        let t: u128 = nearest_of(d * 10, 0x10_0000);
        assert(t <= u64::MAX);
        let t: u64 = t as u64;
        let whole = decimal_of(t / 10);
        let tenth = decimal_of(t % 10);
        let mut s = cat3(whole.as_str(), ".", tenth.as_str());
        s.append(" MB");
        s
    } else {
        let t: u128 = nearest_of(d, 1024);
        let k = decimal_of(t as u64);
        cat2(k.as_str(), " KB")
    }
}

/// Below 2 to the 53rd a double holds a size exactly.
pub proof fn law_sizes_are_exact(n: nat)
    requires
        n < 0x20_0000_0000_0000,
    ensures
        as_double(n) == n,
{
    assert(nearest(n as int, 1) * 1 == n);
}

/// Where the photo starts: under the caption, which fullscreen has none of.
pub open spec fn top_of(ui: Ui) -> int {
    if ui.fullscreen {
        0
    } else {
        at_dpi(32, ui.dpi)
    }
}

impl Ui {
    pub fn caption_h(&self) -> (r: i32)
        requires
            self.wf(),
        ensures
            r == top_of(*self),
            0 <= r <= 0x1_0000,
    {
        if self.fullscreen {
            0
        } else {
            caption_h(self.dpi)
        }
    }

    /// The part of the window the photo lives in, at least one pixel high: its left, top, width and
    /// height.
    pub fn area(&self) -> (r: (i32, i32, i32, i32))
        requires
            self.wf(),
        ensures
            r.0 == 0,
            r.1 == top_of(*self),
            r.2 == self.w,
            r.3 == (if self.h - top_of(*self) < 1 {
                1
            } else {
                self.h - top_of(*self)
            }),
    {
        let top: i32 = self.caption_h();
        let h: i32 = self.h as i32 - top;
        (
            0,
            top,
            self.w as i32,
            if h < 1 {
                1
            } else {
                h
            },
        )
    }

    /// What counts as the caption when the window is asked where a point lies: its height, and the
    /// width of the buttons.
    pub fn caption_zone(&self) -> (r: (i32, i32))
        requires
            self.wf(),
        ensures
            r.0 == top_of(*self),
            r.1 == (if self.fullscreen {
                0
            } else {
                at_dpi(46, self.dpi) * 4
            }),
    {
        let h: i32 = self.caption_h();
        let w: i32 = if self.fullscreen {
            0
        } else {
            buttons_w(self.dpi)
        };
        (h, w)
    }
}

/// What the window is cleared to, and what shows through a photo.
#[derive(Clone, Copy, PartialEq, Eq, Structural, Debug)]
pub enum Shade {
    /// The configured colour, where one is configured.
    Configured(Option<Rgb>),
    Black,
    LightGrey,
}

impl App {
    /// The parts of the info line: which image of how many, its size in pixels and the zoom, and the
    /// size of the file.
    pub open spec fn info_parts(self, zoom: Seq<char>) -> Seq<Seq<char>> {
        let at = decimal((self.nav.cur + 1) as nat) + " / "@;
        let count = if self.nav.select is Some {
            at + "…"@
        } else {
            at + decimal(self.nav.files@.len())
        };
        seq![count] + (if self.shows_current() {
            let t = self.tex.shown->0;
            seq![decimal(t.full_w as nat) + " × "@ + decimal(t.full_h as nat), zoom]
        } else {
            seq!["…"@]
        }) + (if self.file_size > 0 {
            seq![size_words(self.file_size as int)]
        } else {
            seq![]
        })
    }

    pub open spec fn info_words(self, zoom: Seq<char>) -> Seq<char> {
        if self.nav.files@.len() == 0 {
            seq![]
        } else {
            joined(self.info_parts(zoom), "    "@)
        }
    }

    /// What is known of the current image, in one line; `zoom` is the zoom in words.
    pub fn info_line(&self, zoom: &str) -> (r: String)
        requires
            self.wf(),
        ensures
            r@ == self.info_words(zoom@),
    {
        let n: usize = self.nav.files.len();
        if n == 0 {
            let s = String::new();
            assert(s@ =~= seq![]);
            return s;
        }
        let at = decimal_of(self.nav.cur as u64 + 1);
        let all = decimal_of(n as u64);
        let count = if self.nav.select.is_some() {
            cat3(at.as_str(), " / ", "…")
        } else {
            cat3(at.as_str(), " / ", all.as_str())
        };
        let mut parts: Vec<String> = Vec::new();
        parts.push(count);
        let current: bool = match (self.tex.shown, self.cur_path()) {
            (Some(t), Some(p)) => t.path == p,
            _ => false,
        };
        if current {
            let t = self.tex.shown.unwrap();
            let w = decimal_of(t.full_w as u64);
            let h = decimal_of(t.full_h as u64);
            parts.push(cat3(w.as_str(), " × ", h.as_str()));
            parts.push(zoom.to_owned());
        } else {
            parts.push("…".to_owned());
        }
        if self.file_size > 0 {
            parts.push(size_text(self.file_size));
        }
        assert(said(parts@) =~= self.info_parts(zoom@));
        join(&parts, "    ")
    }

    pub open spec fn title_words(self) -> Seq<char> {
        match cur_name(self.nav) {
            Some(n) => n,
            None => "Glint"@,
        }
    }

    /// What the caption calls the image.
    pub fn caption_title(&self) -> (r: String)
        requires
            self.wf(),
        ensures
            r@ == self.title_words(),
    {
        if self.nav.cur < self.nav.files.len() {
            self.nav.files[self.nav.cur].name.as_str().to_owned()
        } else {
            "Glint".to_owned()
        }
    }

    /// What is behind the photo, and whether a checkerboard shows through it.
    pub fn background(&self) -> (r: (Shade, bool))
        ensures
            r.0 == (if self.ui.ground == 1 {
                Shade::Black
            } else if self.ui.ground == 2 {
                Shade::LightGrey
            } else {
                Shade::Configured(self.cfg.background)
            }),
            r.1 == (self.ui.ground == 3),
    {
        let shade = if self.ui.ground == 1 {
            Shade::Black
        } else if self.ui.ground == 2 {
            Shade::LightGrey
        } else {
            Shade::Configured(self.cfg.background)
        };
        (shade, self.ui.ground == 3)
    }

    /// What went wrong with the current file, where nothing of it or of another is shown.
    pub open spec fn trouble(self) -> Option<Seq<char>> {
        match self.current() {
            Some(p) => if self.tex.shown is None && self.store.cache@.contains_key(p) {
                match self.store.cache@[p].err {
                    Some(e) => Some(e@),
                    None => None,
                }
            } else {
                None
            },
            None => None,
        }
    }

    /// What the pill says, if anything, and whether it stands in the middle.
    pub open spec fn pill_words(self, zoom: Seq<char>) -> Option<(Seq<char>, bool)> {
        if self.error is Some {
            Some(("GPU: "@ + self.error->0@, true))
        } else if cur_name(self.nav) is None {
            Some(("Drop an image here  ·  O — open a file"@, true))
        } else if self.trouble() is Some {
            Some(("Cannot open "@ + cur_name(self.nav)->0 + ": "@ + self.trouble()->0, true))
        } else if self.ui.fullscreen && self.ui.info {
            Some((cur_name(self.nav)->0 + "    "@ + self.info_words(zoom), false))
        } else {
            None
        }
    }

    fn failing(&self) -> (r: Option<String>)
        requires
            self.wf(),
        ensures
            r is Some == self.trouble() is Some,
            r is Some ==> r->0@ == self.trouble()->0,
    {
        if self.tex.shown.is_some() {
            return None;
        }
        match self.cur_path() {
            Some(p) => match self.store.get(p) {
                Some(s) => match &s.err {
                    Some(e) => Some(e.as_str().to_owned()),
                    None => None,
                },
                None => None,
            },
            None => None,
        }
    }

    pub fn pill(&self, zoom: &str) -> (r: Option<(String, bool)>)
        requires
            self.wf(),
        ensures
            r is Some == self.pill_words(zoom@) is Some,
            r is Some ==> ((r->0).0@, (r->0).1) == self.pill_words(zoom@)->0,
    {
        match &self.error {
            Some(e) => {
                return Some((cat2("GPU: ", e.as_str()), true));
            },
            None => {},
        }
        if self.nav.cur >= self.nav.files.len() {
            return Some(("Drop an image here  ·  O — open a file".to_owned(), true));
        }
        let name: &str = self.nav.files[self.nav.cur].name.as_str();
        match self.failing() {
            Some(e) => {
                let mut s = cat3("Cannot open ", name, ": ");
                s.append(e.as_str());
                return Some((s, true));
            },
            None => {},
        }
        if self.ui.fullscreen && self.ui.info {
            let line = self.info_line(zoom);
            Some((cat3(name, "    ", line.as_str()), false))
        } else {
            None
        }
    }
}

/// What a caption shows.
#[verifier::ext_equal]
pub struct CaptionWords {
    pub title: Seq<char>,
    pub info: Seq<char>,
    pub hot: Option<Button>,
    pub pressed: bool,
    pub maximized: bool,
    pub w: u32,
    pub dpi: u32,
}

impl View for CaptionKey {
    type V = CaptionWords;

    open spec fn view(&self) -> CaptionWords {
        CaptionWords {
            title: self.title@,
            info: self.info@,
            hot: self.hot,
            pressed: self.pressed,
            maximized: self.maximized,
            w: self.w,
            dpi: self.dpi,
        }
    }
}

/// What a bar shows.
#[verifier::ext_equal]
pub struct BarWords {
    pub hot: Option<Tool>,
    pub fullscreen: bool,
    pub zoom: Seq<char>,
    pub dpi: u32,
}

impl View for BarKey {
    type V = BarWords;

    open spec fn view(&self) -> BarWords {
        BarWords { hot: self.hot, fullscreen: self.fullscreen, zoom: self.zoom@, dpi: self.dpi }
    }
}

fn same_text(a: &String, b: &String) -> (r: bool)
    ensures
        r == (a@ == b@),
{
    let x = chars_of(a.as_str());
    let y = chars_of(b.as_str());
    same(x.as_slice(), y.as_slice())
}

impl CaptionKey {
    /// Two captions look alike.
    pub fn same(&self, other: &CaptionKey) -> (r: bool)
        ensures
            r == (self@ == other@),
    {
        let title: bool = same_text(&self.title, &other.title);
        let info: bool = same_text(&self.info, &other.info);
        title && info && same_button(self.hot, other.hot) && self.pressed == other.pressed
            && self.maximized == other.maximized && self.w == other.w && self.dpi == other.dpi
    }
}

impl BarKey {
    /// Two bars look alike.
    pub fn same(&self, other: &BarKey) -> (r: bool)
        ensures
            r == (self@ == other@),
    {
        let zoom: bool = same_text(&self.zoom, &other.zoom);
        zoom && same_tool(self.hot, other.hot) && self.fullscreen == other.fullscreen && self.dpi
            == other.dpi
    }
}

impl App {
    /// A frame is to be drawn: something changed, and there is a window to see it in.
    pub fn frame_due(&self) -> (r: bool)
        ensures
            r == (self.ui.dirty && !self.hidden),
    {
        self.ui.dirty && !self.hidden
    }

    /// What the caption is to show. The info line is left out where it is switched off.
    pub open spec fn caption_words(self, zoom: Seq<char>, maximized: bool) -> CaptionWords {
        CaptionWords {
            title: self.title_words(),
            info: if self.ui.info {
                self.info_words(zoom)
            } else {
                seq![]
            },
            hot: self.ui.hot,
            pressed: self.ui.pressed is Some,
            maximized,
            w: self.ui.w,
            dpi: self.ui.dpi,
        }
    }

    fn caption_now(&self, zoom: &str, maximized: bool) -> (r: CaptionKey)
        requires
            self.wf(),
        ensures
            r@ == self.caption_words(zoom@, maximized),
    {
        let info = if self.ui.info {
            self.info_line(zoom)
        } else {
            String::new()
        };
        let title = self.caption_title();
        let r = CaptionKey {
            title,
            info,
            hot: self.ui.hot,
            pressed: self.ui.pressed.is_some(),
            maximized,
            w: self.ui.w,
            dpi: self.ui.dpi,
        };
        assert(r@.info =~= self.caption_words(zoom@, maximized).info);
        r
    }

    /// The caption to draw and send up, where it changed or is not there (`drawn`).
    pub fn render_chrome(&mut self, zoom: &str, maximized: bool, drawn: bool) -> (r: Option<CaptionKey>)
        requires
            old(self).wf(),
        ensures
            final(self).wf(),
            r is Some == (old(self).ui.chrome_dirty && !old(self).ui.fullscreen && old(self).ui.w > 0
                && !(drawn && old(self).caption_key is Some && old(self).caption_key->0@ == old(
                self,
            ).caption_words(zoom@, maximized))),
            r is Some ==> r->0@ == old(self).caption_words(zoom@, maximized),
            *final(self) == (App {
                ui: Ui { chrome_dirty: false, ..old(self).ui },
                ..*old(self)
            }),
    {
        let r = if self.ui.chrome_dirty && !self.ui.fullscreen && self.ui.w > 0 {
            let key = self.caption_now(zoom, maximized);
            let there: bool = match &self.caption_key {
                Some(k) => drawn && k.same(&key),
                None => false,
            };
            if there {
                None
            } else {
                Some(key)
            }
        } else {
            None
        };
        self.ui.chrome_dirty = false;
        r
    }

    /// The caption was sent up, or could not be.
    pub fn caption_sent(&mut self, key: CaptionKey, sent: Result<(), String>)
        ensures
            sent is Ok ==> *final(self) == (App { caption_key: Some(key), ..*old(self) }),
            sent is Err ==> *final(self) == (App { error: Some(sent->Err_0), ..*old(self) }),
    {
        match sent {
            Ok(_) => {
                self.caption_key = Some(key);
            },
            Err(e) => {
                self.error = Some(e);
            },
        }
    }

    /// The pill says this from now on: whether it is to be drawn, not being there (`drawn`) or having
    /// said something else.
    pub fn say(&mut self, text: String, drawn: bool) -> (due: bool)
        ensures
            due == (!drawn || text@ != old(self).pill_text@),
            final(self).pill_text@ == text@,
            *final(self) == (App { pill_text: final(self).pill_text, ..*old(self) }),
    {
        let due: bool = !drawn || !same_text(&text, &self.pill_text);
        self.pill_text = text;
        due
    }

    /// What the bar is to show: the zoom only of a photo that is there.
    pub open spec fn bar_words(self, zoom: Seq<char>) -> BarWords {
        BarWords {
            hot: self.ui.bar_hot,
            fullscreen: self.ui.fullscreen,
            zoom: if self.tex.shown is Some {
                zoom
            } else {
                seq![]
            },
            dpi: self.ui.dpi,
        }
    }

    /// The bar to draw and send up, where it changed or is not there (`drawn`).
    pub fn bar_due(&self, zoom: &str, drawn: bool) -> (r: Option<BarKey>)
        ensures
            r is Some == !(drawn && self.bar_key is Some && self.bar_key->0@ == self.bar_words(zoom@)),
            r is Some ==> r->0@ == self.bar_words(zoom@),
    {
        let words = if self.tex.shown.is_some() {
            zoom.to_owned()
        } else {
            String::new()
        };
        let key = BarKey {
            hot: self.ui.bar_hot,
            fullscreen: self.ui.fullscreen,
            zoom: words,
            dpi: self.ui.dpi,
        };
        assert(key@.zoom =~= self.bar_words(zoom@).zoom);
        let there: bool = match &self.bar_key {
            Some(k) => drawn && k.same(&key),
            None => false,
        };
        if there {
            None
        } else {
            Some(key)
        }
    }

    /// The bar was drawn, with its tools at these places.
    pub fn bar_sent(&mut self, key: BarKey, items: Vec<(Tool, Rect)>)
        ensures
            *final(self) == (App { bar_key: Some(key), bar_items: items, ..*old(self) }),
    {
        self.bar_key = Some(key);
        self.bar_items = items;
    }
}

/// The rows of the setup card, with their ticks: nothing to install where this is the installed copy.
pub open spec fn rows_of(c: Card) -> Seq<(CardItem, bool)> {
    (match c.install {
        Some(v) => seq![(CardItem::Install, v)],
        None => seq![],
    }) + seq![(CardItem::Autostart, c.autostart), (CardItem::Default, c.default)]
}

impl Card {
    pub fn rows(&self) -> (r: Vec<(CardItem, bool)>)
        ensures
            r@ == rows_of(*self),
    {
        let mut v: Vec<(CardItem, bool)> = Vec::new();
        match self.install {
            Some(on) => {
                v.push((CardItem::Install, on));
            },
            None => {},
        }
        v.push((CardItem::Autostart, self.autostart));
        v.push((CardItem::Default, self.default));
        assert(v@ =~= rows_of(*self));
        v
    }
}

impl App {
    /// The setup card to draw and send up, where it changed or is not there (`drawn`).
    pub fn card_due(&self, drawn: bool) -> (r: Option<Card>)
        ensures
            r == (if self.ui.card is Some && (self.ui.card->0.dirty || !drawn) {
                self.ui.card
            } else {
                None
            }),
    {
        match self.ui.card {
            Some(c) => if c.dirty || !drawn {
                Some(c)
            } else {
                None
            },
            None => None,
        }
    }

    /// The card was drawn, with its parts at these places.
    pub fn card_sent(&mut self, items: Vec<(CardItem, Rect)>)
        requires
            old(self).ui.card is Some,
        ensures
            *final(self) == (App {
                ui: Ui { card: Some(Card { dirty: false, ..old(self).ui.card->0 }), ..old(self).ui },
                card_items: items,
                ..*old(self)
            }),
    {
        let card: Card = self.ui.card.unwrap();
        self.ui.card = Some(Card { dirty: false, ..card });
        self.card_items = items;
    }
}

/// One picture of a frame, in window pixels.
#[derive(Clone, Copy, PartialEq, Eq, Structural, Debug)]
pub enum Layer {
    /// The photo, from this slot, lying like this. Where it is, the zoom says.
    Photo { slot: usize, turn: Turn },
    Caption(Rect),
    Pill(Rect),
    Bar(Rect),
    /// The window darkened, under the setup card.
    Dim(Rect),
    Card(Rect),
}

/// A rectangle of this size with its corner here.
pub open spec fn sized(x: int, y: int, w: int, h: int) -> Rect {
    Rect { left: x as i32, top: y as i32, right: (x + w) as i32, bottom: (y + h) as i32 }
}

/// Where the pill is: in the middle, or under the caption.
pub open spec fn pill_place(ui: Ui, centred: bool, w: int, h: int) -> Rect {
    sized(
        half(ui.w - w),
        if centred {
            half(ui.h + top_of(ui) - h)
        } else {
            top_of(ui) + at_dpi(16, ui.dpi)
        },
        w,
        h,
    )
}

/// Where the bar is: above the bottom edge.
pub open spec fn bar_place(ui: Ui, w: int, h: int) -> Rect {
    sized(half(ui.w - w), ui.h - h - at_dpi(16, ui.dpi), w, h)
}

/// Where the setup card is: in the middle, but never over the caption.
pub open spec fn card_place(ui: Ui, w: int, h: int) -> Rect {
    let y = half(ui.h + top_of(ui) - h);
    sized(
        half(ui.w - w),
        if y > top_of(ui) {
            y
        } else {
            top_of(ui)
        },
        w,
        h,
    )
}

/// The photo, the caption over it and the pill (in the middle or not) over both.
#[verifier::opaque]
pub open spec fn back_layers(a: App, pill: Option<(bool, u32, u32)>) -> Seq<Layer> {
    (match a.tex.shown {
        Some(t) => seq![
            Layer::Photo {
                slot: a.tex.shown_slot,
                turn: quarters(exif(t.orient), (a.ui.rot % 4) as nat),
            },
        ],
        None => seq![],
    }) + (if top_of(a.ui) > 0 {
        seq![Layer::Caption(sized(0, 0, a.ui.w as int, top_of(a.ui)))]
    } else {
        seq![]
    }) + (match pill {
        Some((centred, w, h)) => seq![Layer::Pill(pill_place(a.ui, centred, w as int, h as int))],
        None => seq![],
    })
}

/// The bar, and the setup card over the darkened window.
#[verifier::opaque]
pub open spec fn front_layers(ui: Ui, bar: Option<(u32, u32)>, card: Option<(u32, u32)>) -> Seq<
    Layer,
> {
    (match bar {
        Some((w, h)) => seq![Layer::Bar(bar_place(ui, w as int, h as int))],
        None => seq![],
    }) + (match card {
        Some((w, h)) => seq![
            Layer::Dim(sized(0, top_of(ui), ui.w as int, ui.h - top_of(ui))),
            Layer::Card(card_place(ui, w as int, h as int)),
        ],
        None => seq![],
    })
}

/// The corner of a place, where there is one.
pub open spec fn corner_of(place: Option<Rect>, before: Point) -> Point {
    match place {
        Some(r) => Point { x: r.left, y: r.top },
        None => before,
    }
}

pub open spec fn bar_at(ui: Ui, bar: Option<(u32, u32)>) -> Option<Rect> {
    match bar {
        Some((w, h)) => Some(bar_place(ui, w as int, h as int)),
        None => None,
    }
}

pub open spec fn card_at(ui: Ui, card: Option<(u32, u32)>) -> Option<Rect> {
    match card {
        Some((w, h)) => Some(card_place(ui, w as int, h as int)),
        None => None,
    }
}

/// The largest picture a frame is put together from.
pub const MAX_SIDE: u32 = 0x0100_0000;

fn corner(place: Option<Rect>, before: Point) -> (p: Point)
    ensures
        p == corner_of(place, before),
{
    match place {
        Some(r) => Point { x: r.left, y: r.top },
        None => before,
    }
}

fn sized_rect(x: i64, y: i64, w: u32, h: u32) -> (r: Rect)
    requires
        -0x2000_0000 <= x <= 0x2000_0000,
        -0x2000_0000 <= y <= 0x2000_0000,
        w <= MAX_SIDE,
        h <= MAX_SIDE,
    ensures
        r == sized(x as int, y as int, w as int, h as int),
{
    rect(x as i32, y as i32, (x + w as i64) as i32, (y + h as i64) as i32)
}

fn gap(ui: &Ui) -> (r: i64)
    requires
        ui.wf(),
    ensures
        r == at_dpi(16, ui.dpi),
        0 <= r <= 0x1_0000,
{
    assert(16 * ui.dpi <= 16 * 0xffff);
    scaled(16, ui.dpi) as i64
}

fn pill_rect(ui: &Ui, centred: bool, w: u32, h: u32) -> (r: Rect)
    requires
        ui.wf(),
        w <= MAX_SIDE,
        h <= MAX_SIDE,
    ensures
        r == pill_place(*ui, centred, w as int, h as int),
{
    let top: i64 = ui.caption_h() as i64;
    let x: i64 = half_of(ui.w as i64 - w as i64);
    let y: i64 = if centred {
        half_of(ui.h as i64 + top - h as i64)
    } else {
        top + gap(ui)
    };
    sized_rect(x, y, w, h)
}

fn bar_rect(ui: &Ui, w: u32, h: u32) -> (r: Rect)
    requires
        ui.wf(),
        w <= MAX_SIDE,
        h <= MAX_SIDE,
    ensures
        r == bar_place(*ui, w as int, h as int),
{
    let x: i64 = half_of(ui.w as i64 - w as i64);
    let y: i64 = ui.h as i64 - h as i64 - gap(ui);
    sized_rect(x, y, w, h)
}

fn card_rect(ui: &Ui, w: u32, h: u32) -> (r: Rect)
    requires
        ui.wf(),
        w <= MAX_SIDE,
        h <= MAX_SIDE,
    ensures
        r == card_place(*ui, w as int, h as int),
{
    let top: i64 = ui.caption_h() as i64;
    let x: i64 = half_of(ui.w as i64 - w as i64);
    let mid: i64 = half_of(ui.h as i64 + top - h as i64);
    let y: i64 = if mid > top {
        mid
    } else {
        top
    };
    sized_rect(x, y, w, h)
}

fn add_front(v: &mut Vec<Layer>, ui: &Ui, bar: Option<Rect>, card: Option<Rect>)
    requires
        ui.wf(),
    ensures
        final(v)@ == old(v)@ + ((match bar {
            Some(r) => seq![Layer::Bar(r)],
            None => seq![],
        }) + (match card {
            Some(r) => seq![
                Layer::Dim(sized(0, top_of(*ui), ui.w as int, ui.h - top_of(*ui))),
                Layer::Card(r),
            ],
            None => seq![],
        })),
{
    let top: i32 = ui.caption_h();
    match bar {
        Some(r) => v.push(Layer::Bar(r)),
        None => {},
    }
    match card {
        Some(r) => {
            v.push(Layer::Dim(rect(0, top, ui.w as i32, ui.h as i32)));
            v.push(Layer::Card(r));
        },
        None => {},
    }
}

/// What is to be done once a frame is out.
#[derive(Clone, Copy, PartialEq, Eq, Structural, Debug)]
pub struct Drawn {
    /// The neighbours go to the GPU now.
    pub prefetch: bool,
    /// It was the first frame: the window is ready.
    pub ready: bool,
}

impl App {
    /// Put a frame together. The bar and the card are remembered where they are, for the pointer.
    pub fn quads(
        &mut self,
        pill: Option<(bool, u32, u32)>,
        bar: Option<(u32, u32)>,
        card: Option<(u32, u32)>,
    ) -> (r: Vec<Layer>)
        requires
            old(self).wf(),
            pill is Some ==> (pill->0).1 <= MAX_SIDE && (pill->0).2 <= MAX_SIDE,
            bar is Some ==> (bar->0).0 <= MAX_SIDE && (bar->0).1 <= MAX_SIDE,
            card is Some ==> (card->0).0 <= MAX_SIDE && (card->0).1 <= MAX_SIDE,
        ensures
            final(self).wf(),
            r@ == back_layers(*old(self), pill) + front_layers(old(self).ui, bar, card),
            *final(self) == (App {
                bar_at: corner_of(bar_at(old(self).ui, bar), old(self).bar_at),
                card_at: corner_of(card_at(old(self).ui, card), old(self).card_at),
                ..*old(self)
            }),
    {
        let mut v: Vec<Layer> = self.back(pill);
        let ui: Ui = self.ui;
        let bar: Option<Rect> = match bar {
            Some((w, h)) => Some(bar_rect(&ui, w, h)),
            None => None,
        };
        let card: Option<Rect> = match card {
            Some((w, h)) => Some(card_rect(&ui, w, h)),
            None => None,
        };
        add_front(&mut v, &ui, bar, card);
        let bar_at: Point = corner(bar, self.bar_at);
        let card_at: Point = corner(card, self.card_at);
        self.bar_at = bar_at;
        self.card_at = card_at;
        proof {
            reveal(front_layers);
        }
        v
    }

    fn back(&self, pill: Option<(bool, u32, u32)>) -> (v: Vec<Layer>)
        requires
            self.wf(),
            pill is Some ==> (pill->0).1 <= MAX_SIDE && (pill->0).2 <= MAX_SIDE,
        ensures
            v@ == back_layers(*self, pill),
    {
        let top: i32 = self.ui.caption_h();
        let mut v: Vec<Layer> = Vec::new();
        match self.tex.shown {
            Some(t) => {
                let turn: Turn = uv_transform(t.orient, self.ui.rot);
                v.push(Layer::Photo { slot: self.tex.shown_slot, turn });
            },
            None => {},
        }
        if top > 0 {
            v.push(Layer::Caption(rect(0, 0, self.ui.w as i32, top)));
        }
        match pill {
            Some((centred, w, h)) => {
                v.push(Layer::Pill(pill_rect(&self.ui, centred, w, h)));
            },
            None => {},
        }
        proof {
            reveal(back_layers);
        }
        assert(v@ =~= back_layers(*self, pill));
        v
    }

    /// A frame was drawn, put off (the window has no size, or changed it), or failed.
    pub fn drawn(&mut self, out: Result<bool, String>) -> (r: Drawn)
        requires
            old(self).wf(),
        ensures
            final(self).wf(),
            out is Err ==> r == (Drawn { prefetch: false, ready: false }) && *final(self) == (App {
                error: Some(out->Err_0),
                ui: Ui { dirty: false, ..old(self).ui },
                ..*old(self)
            }),
            out == Ok::<bool, String>(false) ==> r == (Drawn { prefetch: false, ready: false })
                && *final(self) == *old(self),
            out == Ok::<bool, String>(true) ==> r == (Drawn {
                prefetch: old(self).prefetch_pending,
                ready: old(self).first_frame,
            }) && *final(self) == (App {
                prefetch_pending: false,
                first_frame: false,
                ui: Ui { dirty: false, ..old(self).ui },
                ..*old(self)
            }),
    {
        match out {
            Ok(true) => {
                let r = Drawn { prefetch: self.prefetch_pending, ready: self.first_frame };
                self.prefetch_pending = false;
                self.first_frame = false;
                self.ui.dirty = false;
                r
            },
            Ok(false) => Drawn { prefetch: false, ready: false },
            Err(e) => {
                self.error = Some(e);
                self.ui.dirty = false;
                Drawn { prefetch: false, ready: false }
            },
        }
    }
}

/// The bar stands inside the window wherever the window has room for it and the gap under it.
pub proof fn law_bar_inside(ui: Ui, w: int, h: int)
    requires
        ui.wf(),
        0 <= w <= ui.w,
        0 <= h,
        h + at_dpi(16, ui.dpi) <= ui.h,
    ensures
        ({
            let r = bar_place(ui, w, h);
            &&& 0 <= r.left && r.right <= ui.w && 0 <= r.top && r.bottom <= ui.h
            &&& r.right - r.left == w && r.bottom - r.top == h
        }),
{
    assert(0 <= at_dpi(16, ui.dpi) <= 0x1_0000) by {
        assert(16 * ui.dpi <= 16 * 0xffff);
    }
}

/// The setup card never covers the caption, nor does a pill that is not in the middle.
pub proof fn law_caption_stays_free(ui: Ui, w: int, h: int)
    requires
        ui.wf(),
        0 <= w <= MAX_SIDE,
        0 <= h <= MAX_SIDE,
    ensures
        card_place(ui, w, h).top >= top_of(ui),
        pill_place(ui, false, w, h).top >= top_of(ui),
{
    assert(0 <= at_dpi(16, ui.dpi) <= 0x1_0000) by {
        assert(16 * ui.dpi <= 16 * 0xffff);
    }
    assert(0 <= at_dpi(32, ui.dpi) <= 0x1_0000) by {
        assert(32 * ui.dpi <= 32 * 0xffff);
    }
}

/// The nearest whole number is no further than half away, and is even where two are as near.
pub proof fn law_nearest(n: int, d: int)
    requires
        0 < d,
        0 <= n,
    ensures
        ({
            let r = nearest(n, d);
            &&& -d <= 2 * (r * d - n) <= d
            &&& 2 * (r * d - n) == d || 2 * (r * d - n) == -d ==> r % 2 == 0
            &&& r >= 0
        }),
{
    let (q, r) = (n / d, n % d);
    vstd::arithmetic::div_mod::lemma_fundamental_div_mod(n, d);
    assert(q >= 0) by (nonlinear_arith)
        requires
            n == d * q + r,
            0 <= r < d,
            0 <= n,
    ;
    assert((q + 1) * d == d * q + d && q * d == d * q) by (nonlinear_arith);
}

/// A size is in megabytes exactly from one on, and says at most what it is, rounded to the nearest tenth
/// of one, or kilobyte.
pub proof fn law_size_words(n: int)
    requires
        0 <= n < 0x20_0000_0000_0000,
    ensures
        n >= 1024 * 1024 ==> exists|t: nat|
            -0x10_0000 <= 2 * (t * 0x10_0000 - 10 * n) <= 0x10_0000 && #[trigger] tenths(t) == size_words(n),
        n < 1024 * 1024 ==> exists|k: nat|
            -1024 <= 2 * (k * 1024 - n) <= 1024 && size_words(n) == #[trigger] decimal(k) + " KB"@,
{
    law_sizes_are_exact(n as nat);
    law_nearest(10 * n, 0x10_0000);
    law_nearest(n, 1024);
    if n >= 0x10_0000 {
        let t = nearest(10 * n, 0x10_0000) as nat;
        assert(tenths(t) == size_words(n));
    } else {
        let k = nearest(n, 1024) as nat;
        assert(size_words(n) == decimal(k) + " KB"@);
    }
}

/// Tenths of a megabyte in words.
pub open spec fn tenths(t: nat) -> Seq<char> {
    decimal(t / 10) + "."@ + decimal(t % 10) + " MB"@
}

/// The photo is at the back, the caption over it and the pill over both; the bar comes over them, and over
/// everything the setup card, on the window darkened below its caption.
pub proof fn law_layers_in_order(
    a: App,
    pill: Option<(bool, u32, u32)>,
    bar: Option<(u32, u32)>,
    card: Option<(u32, u32)>,
)
    requires
        a.wf(),
    ensures
        ({
            let back = back_layers(a, pill);
            let front = front_layers(a.ui, bar, card);
            let photo = a.tex.shown is Some;
            let caption = !a.ui.fullscreen && at_dpi(32, a.ui.dpi) > 0;
            let at = if photo {
                1int
            } else {
                0
            };
            &&& photo ==> back.len() > 0 && back[0] is Photo && back[0]->slot == a.tex.shown_slot
            &&& caption ==> back.len() > at && back[at] is Caption && back[at]->Caption_0 == sized(
                0,
                0,
                a.ui.w as int,
                at_dpi(32, a.ui.dpi),
            )
            &&& pill is Some ==> back.len() > 0 && back.last() is Pill
            &&& pill is None && !caption && !photo ==> back.len() == 0
            &&& bar is Some ==> front.len() > 0 && front[0] is Bar
            &&& card is Some ==> front.len() >= 2 && front.last() is Card && front[front.len() - 2] is Dim
            &&& bar is None && card is None ==> front.len() == 0
            &&& forall|i: int| 0 <= i < back.len() ==> !(#[trigger] back[i] is Bar) && !(back[i] is Card)
                && !(back[i] is Dim)
        }),
{
    reveal(back_layers);
    reveal(front_layers);
    let back = back_layers(a, pill);
    let front = front_layers(a.ui, bar, card);
    if card is Some {
        assert(front[front.len() - 1] == front.last());
    }
    if pill is Some {
        assert(back[back.len() - 1] == back.last());
    }
}

/// The bar and the card stand in the middle of the window, but for a pixel, and keep their size; the bar
/// at a distance from the bottom edge, the card in the middle of what the caption leaves.
pub proof fn law_panels_centred(ui: Ui, w: int, h: int)
    requires
        ui.wf(),
        0 <= w <= MAX_SIDE,
        0 <= h <= MAX_SIDE,
    ensures
        ({
            let (bar, card) = (bar_place(ui, w, h), card_place(ui, w, h));
            let (mid, low) = (pill_place(ui, true, w, h), pill_place(ui, false, w, h));
            &&& bar.right - bar.left == w && bar.bottom - bar.top == h
            &&& card.right - card.left == w && card.bottom - card.top == h
            &&& mid.right - mid.left == w && mid.bottom - mid.top == h
            &&& -1 <= bar.left + bar.right - ui.w <= 1
            &&& -1 <= card.left + card.right - ui.w <= 1
            &&& -1 <= mid.left + mid.right - ui.w <= 1
            &&& low.left == mid.left
            &&& bar.bottom + at_dpi(16, ui.dpi) == ui.h
            &&& low.top == top_of(ui) + at_dpi(16, ui.dpi)
            &&& -1 <= mid.top + mid.bottom - (ui.h + top_of(ui)) <= 1
            &&& h <= ui.h - top_of(ui) ==> -1 <= card.top + card.bottom - (ui.h + top_of(ui)) <= 1
        }),
{
    assert(0 <= at_dpi(16, ui.dpi) <= 0x1_0000) by {
        assert(16 * ui.dpi <= 16 * 0xffff);
    }
    assert(0 <= at_dpi(32, ui.dpi) <= 0x1_0000) by {
        assert(32 * ui.dpi <= 32 * 0xffff);
    }
}

/// The info line starts with which image of how many this is, as far as the folder is known; of a photo
/// that is there its size in pixels and the zoom follow, and the size of the file comes last.
pub proof fn law_info(a: App, zoom: Seq<char>)
    requires
        a.wf(),
        a.nav.files@.len() > 0,
    ensures
        ({
            let p = a.info_parts(zoom);
            let place = decimal((a.nav.cur + 1) as nat) + " / "@;
            let there = a.shows_current();
            &&& p.len() == 2 + (if there {
                1int
            } else {
                0
            }) + (if a.file_size > 0 {
                1int
            } else {
                0
            })
            &&& a.nav.select is None ==> p[0] == place + decimal(a.nav.files@.len())
            &&& a.nav.select is Some ==> p[0] == place + "…"@
            &&& there ==> p[1] == decimal(a.tex.shown->0.full_w as nat) + " × "@ + decimal(
                a.tex.shown->0.full_h as nat,
            ) && p[2] == zoom
            &&& !there ==> p[1] == "…"@
            &&& a.file_size > 0 ==> p.last() == size_words(a.file_size as int)
        }),
        a.info_words(zoom) == joined(a.info_parts(zoom), "    "@),
{
}

/// The pill: what is wrong with the GPU comes before anything else, then that there is nothing to show,
/// then that the current file cannot be; and the info line only in fullscreen and where it is wanted.
/// Everything but the info line stands in the middle.
pub proof fn law_pill(a: App, zoom: Seq<char>)
    ensures
        ({
            let p = a.pill_words(zoom);
            &&& a.error is Some ==> p == Some(("GPU: "@ + a.error->0@, true))
            &&& a.error is None && cur_name(a.nav) is None ==> p is Some && (p->0).1
            &&& a.error is None && cur_name(a.nav) is Some && a.trouble() is Some ==> p == Some(
                ("Cannot open "@ + cur_name(a.nav)->0 + ": "@ + a.trouble()->0, true),
            )
            &&& a.error is None && cur_name(a.nav) is Some && a.trouble() is None ==> {
                &&& p is Some <==> a.ui.fullscreen && a.ui.info
                &&& p is Some ==> !(p->0).1 && (p->0).0 == cur_name(a.nav)->0 + "    "@ + a.info_words(zoom)
            }
            &&& a.tex.shown is Some ==> a.trouble() is None
        }),
{
}

/// The caption names the image, and has the info line only where that is wanted; the bar has the zoom only
/// of a photo that is there.
pub proof fn law_caption_and_bar(a: App, zoom: Seq<char>, maximized: bool)
    ensures
        ({
            let c = a.caption_words(zoom, maximized);
            let b = a.bar_words(zoom);
            &&& cur_name(a.nav) is Some ==> c.title == cur_name(a.nav)->0
            &&& cur_name(a.nav) is None ==> c.title == "Glint"@
            &&& a.ui.info ==> c.info == a.info_words(zoom)
            &&& !a.ui.info ==> c.info.len() == 0
            &&& c.maximized == maximized && c.hot == a.ui.hot && c.w == a.ui.w && c.dpi == a.ui.dpi
            &&& c.pressed <==> a.ui.pressed is Some
            &&& a.tex.shown is Some ==> b.zoom == zoom
            &&& a.tex.shown is None ==> b.zoom.len() == 0
            &&& b.hot == a.ui.bar_hot && b.fullscreen == a.ui.fullscreen && b.dpi == a.ui.dpi
        }),
{
}

/// The rows of the card are what is to be ticked: installing first, where that is offered, then starting
/// with Windows, and opening images last; each with its own tick.
pub proof fn law_card_rows(c: Card)
    ensures
        ({
            let r = rows_of(c);
            let n = r.len() as int;
            &&& n == (if c.install is Some {
                3int
            } else {
                2
            })
            &&& c.install is Some ==> r[0] == (CardItem::Install, c.install->0)
            &&& r[n - 2] == (CardItem::Autostart, c.autostart)
            &&& r[n - 1] == (CardItem::Default, c.default)
        }),
{
}

proof fn lemma_unit(n: nat)
    ensures
        unit(n) >= 1,
        n < 0x20_0000_0000_0000 * unit(n),
        n >= 0x20_0000_0000_0000 ==> n >= 0x10_0000_0000_0000 * unit(n),
    decreases n,
{
    if n >= 0x20_0000_0000_0000 {
        lemma_unit(n / 2);
        if n / 2 < 0x20_0000_0000_0000 {
            assert(unit(n / 2) == 1);
        }
    }
}

/// A double holds a size as a whole number of units, no further than half of one away, and the units are
/// as fine as 53 bits allow.
pub proof fn law_double(n: nat)
    ensures
        ({
            let u = unit(n) as int;
            let d = as_double(n);
            &&& u >= 1
            &&& n < 0x20_0000_0000_0000 * u
            &&& n >= 0x20_0000_0000_0000 ==> n >= 0x10_0000_0000_0000 * u
            &&& -u <= 2 * (d - n) <= u
            &&& d % u == 0
        }),
{
    lemma_unit(n);
    let u = unit(n) as int;
    law_nearest(n as int, u);
    vstd::arithmetic::div_mod::lemma_mod_multiples_basic(nearest(n as int, u), u);
}

/// Where a panel is drawn is where the pointer finds it; while it is not drawn its place stays.
pub proof fn law_corner(ui: Ui, size: Option<(u32, u32)>, before: Point)
    ensures
        size is None ==> corner_of(bar_at(ui, size), before) == before && corner_of(card_at(ui, size), before)
            == before,
        size matches Some((w, h)) ==> {
            let (bar, card) = (bar_place(ui, w as int, h as int), card_place(ui, w as int, h as int));
            &&& corner_of(bar_at(ui, size), before) == (Point { x: bar.left, y: bar.top })
            &&& corner_of(card_at(ui, size), before) == (Point { x: card.left, y: card.top })
        },
{
}

/// What went wrong is said of the current file where it failed, as long as nothing is shown.
pub proof fn law_trouble(a: App)
    ensures
        ({
            let p = a.current();
            let there = p is Some && a.store.cache@.contains_key(p->0);
            let err = a.store.cache@[p->0].err;
            &&& a.trouble() is Some <==> there && a.tex.shown is None && err is Some
            &&& a.trouble() is Some ==> a.trouble()->0 == err->0@
        }),
{
}

/// The darkened window is all of it below the caption.
pub proof fn law_dimmed(ui: Ui, bar: Option<(u32, u32)>, w: u32, h: u32)
    requires
        ui.wf(),
    ensures
        ({
            let f = front_layers(ui, bar, Some((w, h)));
            let n = f.len() as int;
            &&& n >= 2
            &&& f[n - 2] == Layer::Dim(
                Rect {
                    left: 0,
                    top: top_of(ui) as i32,
                    right: ui.w as i32,
                    bottom: ui.h as i32,
                },
            )
            &&& f[n - 1] == Layer::Card(card_place(ui, w as int, h as int))
        }),
{
    reveal(front_layers);
}

} // verus!
