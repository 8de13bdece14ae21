//! What the user asks for: keys, mouse and wheel become commands, and the commands change how the
//! viewer looks.

use crate::turn::{exif, quarter, quarters};
use crate::ui::{at_dpi, button_at, button_under, Button, CardItem, Tool};
use crate::win::{Btn, Ev, TrayCmd};
use vstd::prelude::*;

verus! {

pub const VK_BACK: u16 = 0x08;

pub const VK_TAB: u16 = 0x09;

pub const VK_RETURN: u16 = 0x0d;

pub const VK_ESCAPE: u16 = 0x1b;

pub const VK_SPACE: u16 = 0x20;

pub const VK_PRIOR: u16 = 0x21;

pub const VK_NEXT: u16 = 0x22;

pub const VK_END: u16 = 0x23;

pub const VK_HOME: u16 = 0x24;

pub const VK_LEFT: u16 = 0x25;

pub const VK_UP: u16 = 0x26;

pub const VK_RIGHT: u16 = 0x27;

pub const VK_DOWN: u16 = 0x28;

pub const VK_DELETE: u16 = 0x2e;

pub const VK_0: u16 = 0x30;

pub const VK_1: u16 = 0x31;

pub const VK_B: u16 = 0x42;

pub const VK_F: u16 = 0x46;

pub const VK_I: u16 = 0x49;

pub const VK_L: u16 = 0x4c;

pub const VK_N: u16 = 0x4e;

pub const VK_O: u16 = 0x4f;

pub const VK_Q: u16 = 0x51;

pub const VK_R: u16 = 0x52;

pub const VK_T: u16 = 0x54;

pub const VK_NUMPAD0: u16 = 0x60;

pub const VK_NUMPAD1: u16 = 0x61;

pub const VK_ADD: u16 = 0x6b;

pub const VK_SUBTRACT: u16 = 0x6d;

pub const VK_F11: u16 = 0x7a;

pub const VK_OEM_PLUS: u16 = 0xbb;

pub const VK_OEM_MINUS: u16 = 0xbd;

/// `[`
pub const VK_OEM_4: u16 = 0xdb;

/// `]`
pub const VK_OEM_6: u16 = 0xdd;

/// The longest side of a window that is reckoned with: far past what the system gives.
pub const MAX_WINDOW: u32 = 0x2000_0000;

#[derive(Clone, Copy, PartialEq, Eq, Structural, Debug)]
pub struct Point {
    pub x: i32,
    pub y: i32,
}

/// The setup card while it is open.
#[derive(Clone, Copy, PartialEq, Eq, Structural, Debug)]
pub struct Card {
    /// `None`: this is the installed copy, nothing to install.
    pub install: Option<bool>,
    pub autostart: bool,
    pub default: bool,
    pub hot: Option<CardItem>,
    /// It is to be drawn anew.
    pub dirty: bool,
}

/// How the viewer looks, and where the pointer is.
#[derive(Clone, Copy, PartialEq, Eq, Structural, Debug)]
pub struct Ui {
    pub w: u32,
    pub h: u32,
    pub dpi: u32,
    pub fullscreen: bool,
    /// The photo is fitted in the window.
    pub fit: bool,
    /// The user's quarter turns clockwise, on top of the file's EXIF orientation.
    pub rot: u8,
    pub info: bool,
    /// The ground: the configured colour, black, light grey, a checkerboard.
    pub ground: u8,
    /// Above every window that is not so itself.
    pub topmost: bool,
    /// Percent.
    pub opacity: u8,
    pub mouse: Point,
    pub drag: Option<Point>,
    pub hot: Option<Button>,
    pub pressed: Option<Button>,
    /// The pointer is near the bottom edge.
    pub bar_hover: bool,
    pub bar_hot: Option<Tool>,
    pub card: Option<Card>,
    /// A frame is to be drawn.
    pub dirty: bool,
    /// The caption may have changed.
    pub chrome_dirty: bool,
}

/// What a caption button does.
#[derive(Clone, Copy, PartialEq, Eq, Structural, Debug)]
pub enum Click {
    Nothing,
    OpenSetup,
    CloseSetup,
    Minimize,
    Maximize,
    Close,
}

/// What is asked for.
#[allow(inconsistent_fields)]
#[derive(Clone, Copy, PartialEq, Eq, Structural, Debug)]
pub enum Command {
    Nothing,
    Resize(u32, u32),
    Repaint,
    Dpi(u32),
    /// Take what the decoding threads sent.
    Poll,
    /// The pointer over the setup card.
    CardHover { at: Point, item: Option<CardItem>, hot: Option<Button> },
    /// A box of the setup card.
    Toggle(CardItem),
    ApplySetup,
    CloseSetup,
    /// The pointer moved.
    Hover { at: Point, hover: bool, tool: Option<Tool>, hot: Option<Button> },
    Leave,
    UseTool(Tool),
    Press(Button),
    Grab(Point),
    Release { click: Click },
    Step { back: bool },
    First,
    Last,
    /// Zoom by a step, keeping the point where it is.
    Zoom { up: bool, at: Point },
    /// Zoom by the wheel's travel, keeping the point where it is.
    Wheel { delta: i32, at: Point },
    Fit,
    /// 100 %, around the middle.
    Actual,
    /// 100 %, keeping the point where it is.
    ActualAt(Point),
    Fullscreen(bool),
    Turn { back: bool },
    Info,
    Ground,
    Delete,
    OpenDialog,
    Topmost,
    Opacity { up: bool },
    /// The current image in a window of its own.
    Detach,
    CloseWindow,
    Drop(u64),
    Open(Option<u64>),
    /// The window is being closed.
    Close,
    Quit,
    Tray(TrayCmd),
}

impl Ui {
    pub open spec fn wf(self) -> bool {
        &&& self.w <= MAX_WINDOW
        &&& self.h <= MAX_WINDOW
        &&& self.dpi <= 0xffff
        &&& self.rot < 4
        &&& self.ground < 4
        &&& 10 <= self.opacity <= 100
    }

    /// The caption button under a point: in fullscreen there is no caption.
    pub open spec fn hot_under(self, x: int, y: int) -> Option<Button> {
        if self.fullscreen {
            None
        } else {
            button_under(x, y, self.w as int, self.dpi)
        }
    }

    /// The pointer is near the bottom edge.
    pub open spec fn in_zone(self, y: int) -> bool {
        y >= self.h - at_dpi(96, self.dpi)
    }

    /// The bar shows by itself while the photo is fitted in a window; zoomed in or fullscreen it
    /// keeps out of the way until the pointer comes near the bottom.
    pub open spec fn bar_shows(self, files: bool, zoomed_in: bool) -> bool {
        self.card is None && files && (self.bar_hover || (!self.fullscreen && !zoomed_in))
    }

    pub fn new(w: u32, h: u32, dpi: u32, info: bool) -> (r: Ui)
        requires
            w <= MAX_WINDOW,
            h <= MAX_WINDOW,
            dpi <= 0xffff,
        ensures
            r.wf(),
            r == (Ui {
                w,
                h,
                dpi,
                fullscreen: false,
                fit: true,
                rot: 0,
                info,
                ground: 0,
                topmost: false,
                opacity: 100,
                mouse: Point { x: 0, y: 0 },
                drag: None,
                hot: None,
                pressed: None,
                bar_hover: false,
                bar_hot: None,
                card: None,
                dirty: true,
                chrome_dirty: true,
            }),
    {
        Ui {
            w,
            h,
            dpi,
            fullscreen: false,
            fit: true,
            rot: 0,
            info,
            ground: 0,
            topmost: false,
            opacity: 100,
            mouse: Point { x: 0, y: 0 },
            drag: None,
            hot: None,
            pressed: None,
            bar_hover: false,
            bar_hot: None,
            card: None,
            dirty: true,
            chrome_dirty: true,
        }
    }

    pub fn hot_at(&self, x: i32, y: i32) -> (r: Option<Button>)
        requires
            self.wf(),
        ensures
            r == self.hot_under(x as int, y as int),
    {
        if self.fullscreen {
            None
        } else {
            button_at(x, y, self.w as i32, self.dpi)
        }
    }

    pub fn in_bar_zone(&self, y: i32) -> (r: bool)
        requires
            self.wf(),
        ensures
            r == self.in_zone(y as int),
    {
        y >= self.h as i32 - crate::ui::scaled(96, self.dpi)
    }

    pub fn bar_visible(&self, files: bool, zoomed_in: bool) -> (r: bool)
        ensures
            r == self.bar_shows(files, zoomed_in),
    {
        self.card.is_none() && files && (self.bar_hover || (!self.fullscreen && !zoomed_in))
    }
}

pub open spec fn forward_key(vk: u16) -> bool {
    vk == VK_RIGHT || vk == VK_NEXT || vk == VK_SPACE
}

pub open spec fn back_key(vk: u16) -> bool {
    vk == VK_LEFT || vk == VK_PRIOR || vk == VK_BACK
}

pub open spec fn zoom_in_key(vk: u16) -> bool {
    vk == VK_UP || vk == VK_ADD || vk == VK_OEM_PLUS
}

pub open spec fn zoom_out_key(vk: u16) -> bool {
    vk == VK_DOWN || vk == VK_SUBTRACT || vk == VK_OEM_MINUS
}

/// A key that goes on while it is held: flipping and zooming.
pub open spec fn held_key(vk: u16) -> bool {
    forward_key(vk) || back_key(vk) || vk == VK_HOME || vk == VK_END || zoom_in_key(vk)
        || zoom_out_key(vk)
}

/// What a key asks for.
#[verifier::opaque]
pub open spec fn keyed(ui: Ui, vk: u16, repeat: bool, shift: bool) -> Command {
    if ui.card is Some {
        if vk == VK_ESCAPE {
            Command::CloseSetup
        } else if vk == VK_RETURN {
            Command::ApplySetup
        } else {
            Command::Nothing
        }
    } else if forward_key(vk) {
        Command::Step { back: false }
    } else if back_key(vk) {
        Command::Step { back: true }
    } else if vk == VK_HOME {
        Command::First
    } else if vk == VK_END {
        Command::Last
    } else if zoom_in_key(vk) {
        Command::Zoom { up: true, at: ui.mouse }
    } else if zoom_out_key(vk) {
        Command::Zoom { up: false, at: ui.mouse }
    } else if repeat {
        Command::Nothing
    } else {
        keyed_once(ui, vk, shift)
    }
}

/// What a key asks for that does its work once, however long it is held.
pub open spec fn keyed_once(ui: Ui, vk: u16, shift: bool) -> Command {
    if vk == VK_0 || vk == VK_NUMPAD0 {
        Command::Fit
    } else if vk == VK_1 || vk == VK_NUMPAD1 {
        Command::Actual
    } else if vk == VK_F || vk == VK_F11 || vk == VK_RETURN {
        Command::Fullscreen(!ui.fullscreen)
    } else if vk == VK_ESCAPE {
        if ui.fullscreen {
            Command::Fullscreen(false)
        } else {
            Command::CloseWindow
        }
    } else if vk == VK_R {
        Command::Turn { back: shift }
    } else if vk == VK_L {
        Command::Turn { back: true }
    } else if vk == VK_I || vk == VK_TAB {
        Command::Info
    } else if vk == VK_B {
        Command::Ground
    } else if vk == VK_DELETE {
        Command::Delete
    } else if vk == VK_O {
        Command::OpenDialog
    } else if vk == VK_T {
        Command::Topmost
    } else if vk == VK_OEM_4 {
        Command::Opacity { up: false }
    } else if vk == VK_OEM_6 {
        Command::Opacity { up: true }
    } else if vk == VK_N {
        Command::Detach
    } else if vk == VK_Q {
        Command::CloseWindow
    } else {
        Command::Nothing
    }
}

pub fn key(ui: &Ui, vk: u16, repeat: bool, shift: bool) -> (r: Command)
    ensures
        r == keyed(*ui, vk, repeat, shift),
{
    proof {
        reveal(keyed);
    }
    if ui.card.is_some() {
        return if vk == VK_ESCAPE {
            Command::CloseSetup
        } else if vk == VK_RETURN {
            Command::ApplySetup
        } else {
            Command::Nothing
        };
    }
    if vk == VK_RIGHT || vk == VK_NEXT || vk == VK_SPACE {
        Command::Step { back: false }
    } else if vk == VK_LEFT || vk == VK_PRIOR || vk == VK_BACK {
        Command::Step { back: true }
    } else if vk == VK_HOME {
        Command::First
    } else if vk == VK_END {
        Command::Last
    } else if vk == VK_UP || vk == VK_ADD || vk == VK_OEM_PLUS {
        Command::Zoom { up: true, at: ui.mouse }
    } else if vk == VK_DOWN || vk == VK_SUBTRACT || vk == VK_OEM_MINUS {
        Command::Zoom { up: false, at: ui.mouse }
    } else if repeat {
        Command::Nothing
    } else if vk == VK_0 || vk == VK_NUMPAD0 {
        Command::Fit
    } else if vk == VK_1 || vk == VK_NUMPAD1 {
        Command::Actual
    } else if vk == VK_F || vk == VK_F11 || vk == VK_RETURN {
        Command::Fullscreen(!ui.fullscreen)
    } else if vk == VK_ESCAPE {
        if ui.fullscreen {
            Command::Fullscreen(false)
        } else {
            Command::CloseWindow
        }
    } else if vk == VK_R {
        Command::Turn { back: shift }
    } else if vk == VK_L {
        Command::Turn { back: true }
    } else if vk == VK_I || vk == VK_TAB {
        Command::Info
    } else if vk == VK_B {
        Command::Ground
    } else if vk == VK_DELETE {
        Command::Delete
    } else if vk == VK_O {
        Command::OpenDialog
    } else if vk == VK_T {
        Command::Topmost
    } else if vk == VK_OEM_4 {
        Command::Opacity { up: false }
    } else if vk == VK_OEM_6 {
        Command::Opacity { up: true }
    } else if vk == VK_N {
        Command::Detach
    } else if vk == VK_Q {
        Command::CloseWindow
    } else {
        Command::Nothing
    }
}

/// A key that does something when it goes down.
pub open spec fn bound_key(vk: u16) -> bool {
    ||| vk == VK_0 || vk == VK_NUMPAD0 || vk == VK_1 || vk == VK_NUMPAD1 || vk == VK_F
    ||| vk == VK_F11 || vk == VK_RETURN || vk == VK_ESCAPE || vk == VK_R || vk == VK_L
    ||| vk == VK_I || vk == VK_TAB || vk == VK_B || vk == VK_DELETE || vk == VK_O || vk == VK_T
    ||| vk == VK_OEM_4 || vk == VK_OEM_6 || vk == VK_N || vk == VK_Q
}

/// The keys, one by one, by the numbers Windows gives them: arrows, page and space keys flip; `+`, `-`
/// and the upright arrows zoom at the pointer; the letters are their own in ASCII.
pub proof fn law_controls(ui: Ui, vk: u16, repeat: bool, shift: bool)
    ensures
        ({
            let r = keyed(ui, vk, repeat, shift);
            let held = vk == 0x27 || vk == 0x22 || vk == 0x20 || vk == 0x25 || vk == 0x21 || vk == 0x08
                || vk == 0x24 || vk == 0x23 || vk == 0x26 || vk == 0x6b || vk == 0xbb || vk == 0x28
                || vk == 0x6d || vk == 0xbd;
            &&& held == held_key(vk)
            &&& ui.card is None && !held && !bound_key(vk) ==> r == Command::Nothing
            &&& ui.card is Some && vk == 0x1b ==> r == Command::CloseSetup
            &&& ui.card is Some && vk == 0x0d ==> r == Command::ApplySetup
            &&& ui.card is Some && vk != 0x1b && vk != 0x0d ==> r == Command::Nothing
            &&& ui.card is None ==> {
                // Right, Page Down, Space; Left, Page Up, Backspace.
                &&& vk == 0x27 || vk == 0x22 || vk == 0x20 ==> r == (Command::Step { back: false })
                &&& vk == 0x25 || vk == 0x21 || vk == 0x08 ==> r == (Command::Step { back: true })
                // Home, End.
                &&& vk == 0x24 ==> r == Command::First
                &&& vk == 0x23 ==> r == Command::Last
                // Up and plus, down and minus, of both blocks.
                &&& vk == 0x26 || vk == 0x6b || vk == 0xbb ==> r == (Command::Zoom {
                    up: true,
                    at: ui.mouse,
                })
                &&& vk == 0x28 || vk == 0x6d || vk == 0xbd ==> r == (Command::Zoom {
                    up: false,
                    at: ui.mouse,
                })
                &&& repeat && !held ==> r == Command::Nothing
                &&& !repeat ==> {
                    &&& vk == 0x30 || vk == 0x60 ==> r == Command::Fit
                    &&& vk == 0x31 || vk == 0x61 ==> r == Command::Actual
                    // F, F11, Enter; Escape leaves fullscreen first.
                    &&& vk == 0x46 || vk == 0x7a || vk == 0x0d ==> r == Command::Fullscreen(
                        !ui.fullscreen,
                    )
                    &&& vk == 0x1b && ui.fullscreen ==> r == Command::Fullscreen(false)
                    &&& vk == 0x1b && !ui.fullscreen ==> r == Command::CloseWindow
                    // R, with Shift the other way, L.
                    &&& vk == 0x52 && !shift ==> r == (Command::Turn { back: false })
                    &&& vk == 0x52 && shift ==> r == (Command::Turn { back: true })
                    &&& vk == 0x4c ==> r == (Command::Turn { back: true })
                    // I, Tab; B; Delete; O; T.
                    &&& vk == 0x49 || vk == 0x09 ==> r == Command::Info
                    &&& vk == 0x42 ==> r == Command::Ground
                    &&& vk == 0x2e ==> r == Command::Delete
                    &&& vk == 0x4f ==> r == Command::OpenDialog
                    &&& vk == 0x54 ==> r == Command::Topmost
                    // The square brackets; N; Q.
                    &&& vk == 0xdb ==> r == (Command::Opacity { up: false })
                    &&& vk == 0xdd ==> r == (Command::Opacity { up: true })
                    &&& vk == 0x4e ==> r == Command::Detach
                    &&& vk == 0x51 ==> r == Command::CloseWindow
                    &&& !held && vk != 0x30 && vk != 0x60 && vk != 0x31 && vk != 0x61 && vk != 0x46
                        && vk != 0x7a && vk != 0x0d && vk != 0x1b && vk != 0x52 && vk != 0x4c && vk
                        != 0x49 && vk != 0x09 && vk != 0x42 && vk != 0x2e && vk != 0x4f && vk != 0x54
                        && vk != 0xdb && vk != 0xdd && vk != 0x4e && vk != 0x51 ==> r
                        == Command::Nothing
                }
            }
        }),
{
    reveal(keyed);
}

/// What the left button's press asks for, with the tool and the card's item under it.
pub open spec fn pressed_at(ui: Ui, p: Point, tool: Option<Tool>, item: Option<CardItem>) -> Command {
    match ui.hot_under(p.x as int, p.y as int) {
        None => if ui.card is Some {
            match item {
                Some(CardItem::Apply) => Command::ApplySetup,
                Some(CardItem::Skip) => Command::CloseSetup,
                Some(i) => Command::Toggle(i),
                None => Command::Nothing,
            }
        } else {
            match tool {
                Some(t) => Command::UseTool(t),
                None => Command::Grab(p),
            }
        },
        Some(b) => match tool {
            Some(t) => Command::UseTool(t),
            None => Command::Press(b),
        },
    }
}

/// What letting go over the button that was pressed does.
pub open spec fn clicked(ui: Ui, p: Point) -> Click {
    match ui.pressed {
        Some(b) => if ui.hot_under(p.x as int, p.y as int) == Some(b) {
            match b {
                Button::Settings => if ui.card is Some {
                    Click::CloseSetup
                } else {
                    Click::OpenSetup
                },
                Button::Min => Click::Minimize,
                Button::Max => Click::Maximize,
                Button::Close => Click::Close,
            }
        } else {
            Click::Nothing
        },
        None => Click::Nothing,
    }
}

fn press(ui: &Ui, p: Point, tool: Option<Tool>, item: Option<CardItem>) -> (r: Command)
    requires
        ui.wf(),
    ensures
        r == pressed_at(*ui, p, tool, item),
{
    match ui.hot_at(p.x, p.y) {
        None => if ui.card.is_some() {
            match item {
                Some(CardItem::Apply) => Command::ApplySetup,
                Some(CardItem::Skip) => Command::CloseSetup,
                Some(i) => Command::Toggle(i),
                None => Command::Nothing,
            }
        } else {
            match tool {
                Some(t) => Command::UseTool(t),
                None => Command::Grab(p),
            }
        },
        Some(b) => match tool {
            Some(t) => Command::UseTool(t),
            None => Command::Press(b),
        },
    }
}

fn release(ui: &Ui, p: Point) -> (r: Click)
    requires
        ui.wf(),
    ensures
        r == clicked(*ui, p),
{
    let hot = ui.hot_at(p.x, p.y);
    match (ui.pressed, hot) {
        (Some(b), Some(h)) => if b == h {
            match b {
                Button::Settings => if ui.card.is_some() {
                    Click::CloseSetup
                } else {
                    Click::OpenSetup
                },
                Button::Min => Click::Minimize,
                Button::Max => Click::Maximize,
                Button::Close => Click::Close,
            }
        } else {
            Click::Nothing
        },
        _ => Click::Nothing,
    }
}

/// What is around an event: the state of two keys, and what of the panels is under its point.
#[derive(Clone, Copy)]
pub struct Around {
    pub shift: bool,
    pub ctrl: bool,
    /// The wheel zooms (or flips).
    pub wheel_zoom: bool,
    pub tool: Option<Tool>,
    pub item: Option<CardItem>,
}

/// The bar is hovered while the pointer, not dragging, is near the bottom.
pub open spec fn hovers(ui: Ui, y: int) -> bool {
    ui.drag is None && ui.in_zone(y)
}

/// What an event asks for.
#[verifier::opaque]
pub open spec fn asked(ui: Ui, e: Ev, a: Around) -> Command {
    match e {
        Ev::Resize(w, h) => Command::Resize(w, h),
        Ev::Paint => Command::Repaint,
        Ev::Dpi(d) => Command::Dpi(d),
        Ev::Loaded => Command::Poll,
        Ev::Key { vk, down, repeat } => if down {
            keyed(ui, vk, repeat, a.shift)
        } else {
            Command::Nothing
        },
        Ev::MouseMove(x, y) => if ui.card is Some {
            Command::CardHover {
                at: Point { x, y },
                item: a.item,
                hot: ui.hot_under(x as int, y as int),
            }
        } else {
            Command::Hover {
                at: Point { x, y },
                hover: hovers(ui, y as int),
                tool: a.tool,
                hot: ui.hot_under(x as int, y as int),
            }
        },
        Ev::MouseLeave => Command::Leave,
        Ev::Button { b, down, x, y } => match (b, down) {
            (Btn::Left, true) => pressed_at(ui, Point { x, y }, a.tool, a.item),
            (Btn::Left, false) => Command::Release { click: clicked(ui, Point { x, y }) },
            (Btn::Back, true) => Command::Step { back: true },
            (Btn::Forward, true) => Command::Step { back: false },
            (Btn::Middle, true) => if ui.fit {
                Command::ActualAt(Point { x, y })
            } else {
                Command::Fit
            },
            _ => Command::Nothing,
        },
        // The second press of a quick double click is still a press for everything but the photo.
        Ev::DoubleClick(x, y) => if ui.card is Some || a.tool is Some || ui.hot_under(
            x as int,
            y as int,
        ) is Some {
            pressed_at(ui, Point { x, y }, a.tool, a.item)
        } else {
            Command::Fullscreen(!ui.fullscreen)
        },
        Ev::Wheel { delta, x, y } => if ui.card is Some {
            Command::Nothing
        } else if a.wheel_zoom != a.ctrl {
            Command::Wheel { delta, at: Point { x, y } }
        } else if delta != 0 {
            Command::Step { back: delta > 0 }
        } else {
            Command::Nothing
        },
        Ev::Drop(p) => Command::Drop(p),
        Ev::Open(p) => Command::Open(p),
        Ev::Close => Command::Close,
        Ev::Quit => Command::Quit,
        Ev::Tray(c) => Command::Tray(c),
        Ev::Timer(_) => Command::Nothing,
    }
}

/// An event that can come: sizes and resolutions are 16 bits in the messages they come from.
pub open spec fn event_fits(e: Ev) -> bool {
    match e {
        Ev::Resize(w, h) => w <= MAX_WINDOW && h <= MAX_WINDOW,
        Ev::Dpi(d) => d <= 0xffff,
        _ => true,
    }
}

pub proof fn lemma_asked_fits(ui: Ui, e: Ev, a: Around)
    requires
        event_fits(e),
    ensures
        fits(asked(ui, e, a)),
{
    reveal(asked);
    reveal(keyed);
}

pub fn command(ui: &Ui, e: Ev, a: Around) -> (r: Command)
    requires
        ui.wf(),
    ensures
        r == asked(*ui, e, a),
{
    proof {
        reveal(asked);
    }
    match e {
        Ev::Resize(w, h) => Command::Resize(w, h),
        Ev::Paint => Command::Repaint,
        Ev::Dpi(d) => Command::Dpi(d),
        Ev::Loaded => Command::Poll,
        Ev::Key { vk, down, repeat } => if down {
            key(ui, vk, repeat, a.shift)
        } else {
            Command::Nothing
        },
        Ev::MouseMove(x, y) => {
            let hot = ui.hot_at(x, y);
            if ui.card.is_some() {
                Command::CardHover { at: Point { x, y }, item: a.item, hot }
            } else {
                Command::Hover {
                    at: Point { x, y },
                    hover: ui.drag.is_none() && ui.in_bar_zone(y),
                    tool: a.tool,
                    hot,
                }
            }
        },
        Ev::MouseLeave => Command::Leave,
        Ev::Button { b, down, x, y } => match (b, down) {
            (Btn::Left, true) => press(ui, Point { x, y }, a.tool, a.item),
            (Btn::Left, false) => Command::Release { click: release(ui, Point { x, y }) },
            (Btn::Back, true) => Command::Step { back: true },
            (Btn::Forward, true) => Command::Step { back: false },
            (Btn::Middle, true) => if ui.fit {
                Command::ActualAt(Point { x, y })
            } else {
                Command::Fit
            },
            _ => Command::Nothing,
        },
        Ev::DoubleClick(x, y) => {
            if ui.card.is_some() || a.tool.is_some() || ui.hot_at(x, y).is_some() {
                press(ui, Point { x, y }, a.tool, a.item)
            } else {
                Command::Fullscreen(!ui.fullscreen)
            }
        },
        Ev::Wheel { delta, x, y } => if ui.card.is_some() {
            Command::Nothing
        } else if a.wheel_zoom != a.ctrl {
            Command::Wheel { delta, at: Point { x, y } }
        } else if delta != 0 {
            Command::Step { back: delta > 0 }
        } else {
            Command::Nothing
        },
        Ev::Drop(p) => Command::Drop(p),
        Ev::Open(p) => Command::Open(p),
        Ev::Close => Command::Close,
        Ev::Quit => Command::Quit,
        Ev::Tray(c) => Command::Tray(c),
        Ev::Timer(_) => Command::Nothing,
    }
}

/// A frame is to be drawn, and the caption looked at.
pub open spec fn redrawn(ui: Ui) -> Ui {
    Ui { dirty: true, chrome_dirty: true, ..ui }
}

/// A box of the card is ticked, or no longer.
pub open spec fn toggled(c: Card, item: CardItem) -> Card {
    match item {
        CardItem::Install => Card {
            install: match c.install {
                Some(v) => Some(!v),
                None => None,
            },
            dirty: true,
            ..c
        },
        CardItem::Autostart => Card { autostart: !c.autostart, dirty: true, ..c },
        CardItem::Default => Card { default: !c.default, dirty: true, ..c },
        _ => c,
    }
}

pub open spec fn with_hot(ui: Ui, hot: Option<Button>) -> Ui {
    if hot != ui.hot {
        redrawn(Ui { hot, ..ui })
    } else {
        ui
    }
}

pub open spec fn with_card_hot(ui: Ui, item: Option<CardItem>) -> Ui {
    match ui.card {
        Some(c) => if c.hot != item {
            Ui { card: Some(Card { hot: item, dirty: true, ..c }), dirty: true, ..ui }
        } else {
            ui
        },
        None => ui,
    }
}

pub open spec fn with_bar(ui: Ui, hover: bool, tool: Option<Tool>) -> Ui {
    Ui {
        bar_hover: hover,
        bar_hot: tool,
        dirty: ui.dirty || hover != ui.bar_hover || tool != ui.bar_hot,
        ..ui
    }
}

pub open spec fn dragged(ui: Ui, at: Point) -> Ui {
    if ui.drag is Some {
        Ui { drag: Some(at), dirty: true, ..ui }
    } else {
        ui
    }
}

pub open spec fn full(ui: Ui, on: bool) -> Ui {
    redrawn(Ui { fullscreen: on, hot: None, ..ui })
}

pub open spec fn turned(ui: Ui, back: bool) -> Ui {
    redrawn(
        Ui {
            rot: ((ui.rot + if back {
                3int
            } else {
                1
            }) % 4) as u8,
            fit: true,
            ..ui
        },
    )
}

/// How the viewer looks once a command is taken. What only the photos decide (which one is shown,
/// how far it is zoomed) comes after it.
#[verifier::opaque]
pub open spec fn taken(ui: Ui, c: Command) -> Ui {
    match c {
        Command::Resize(w, h) => redrawn(Ui { w, h, ..ui }),
        Command::Repaint => Ui { dirty: true, ..ui },
        Command::Dpi(dpi) => redrawn(Ui { dpi, ..ui }),
        Command::CardHover { at, item, hot } => with_hot(
            with_card_hot(Ui { mouse: at, ..ui }, item),
            hot,
        ),
        Command::Toggle(item) => match ui.card {
            Some(card) => Ui { card: Some(toggled(card, item)), dirty: true, ..ui },
            None => ui,
        },
        Command::Hover { at, hover, tool, hot } => with_hot(
            Ui { mouse: at, ..dragged(with_bar(ui, hover, tool), at) },
            hot,
        ),
        Command::Leave => {
            let u = if ui.bar_hover || ui.bar_hot is Some {
                Ui { bar_hover: false, bar_hot: None, dirty: true, ..ui }
            } else {
                ui
            };
            if u.hot is Some && u.pressed is None {
                redrawn(Ui { hot: None, ..u })
            } else {
                u
            }
        },
        Command::UseTool(t) => match t {
            Tool::Fit => redrawn(Ui { fit: true, ..ui }),
            Tool::Rotate => turned(ui, false),
            Tool::Fullscreen => full(ui, !ui.fullscreen),
            _ => Ui { dirty: true, ..ui },
        },
        Command::Press(b) => redrawn(Ui { pressed: Some(b), ..ui }),
        Command::Grab(p) => Ui { drag: Some(p), ..ui },
        Command::Release { .. } => {
            let u = Ui { drag: None, ..ui };
            if ui.pressed is Some {
                redrawn(Ui { pressed: None, ..u })
            } else {
                u
            }
        },
        Command::Fit => redrawn(Ui { fit: true, ..ui }),
        Command::Fullscreen(on) => full(ui, on),
        Command::Turn { back } => turned(ui, back),
        Command::Info => redrawn(Ui { info: !ui.info, ..ui }),
        Command::Ground => Ui { ground: ((ui.ground + 1) % 4) as u8, dirty: true, ..ui },
        Command::Topmost => Ui { topmost: !ui.topmost, ..ui },
        Command::Opacity { up } => Ui {
            opacity: if up {
                if ui.opacity > 90 {
                    100
                } else {
                    (ui.opacity + 10) as u8
                }
            } else {
                if ui.opacity < 20 {
                    10
                } else {
                    (ui.opacity - 10) as u8
                }
            },
            ..ui
        },
        _ => ui,
    }
}

/// A command that can come: sizes and resolutions are 16 bits in the messages they come from.
pub open spec fn fits(c: Command) -> bool {
    match c {
        Command::Resize(w, h) => w <= MAX_WINDOW && h <= MAX_WINDOW,
        Command::Dpi(d) => d <= 0xffff,
        _ => true,
    }
}

pub fn same_button(a: Option<Button>, b: Option<Button>) -> (r: bool)
    ensures
        r == (a == b),
{
    match (a, b) {
        (Some(x), Some(y)) => x == y,
        (None, None) => true,
        _ => false,
    }
}

pub fn same_tool(a: Option<Tool>, b: Option<Tool>) -> (r: bool)
    ensures
        r == (a == b),
{
    match (a, b) {
        (Some(x), Some(y)) => x == y,
        (None, None) => true,
        _ => false,
    }
}

fn same_item(a: Option<CardItem>, b: Option<CardItem>) -> (r: bool)
    ensures
        r == (a == b),
{
    match (a, b) {
        (Some(x), Some(y)) => x == y,
        (None, None) => true,
        _ => false,
    }
}

impl Ui {
    /// Draw, and look at the caption.
    pub fn redraw(&mut self)
        ensures
            *final(self) == redrawn(*old(self)),
    {
        self.dirty = true;
        self.chrome_dirty = true;
    }

    /// The pointer is here: before the first move of it and between two, a key that zooms at the
    /// pointer still finds it.
    pub fn pointer_at(&mut self, at: Point)
        ensures
            *final(self) == (Ui { mouse: at, ..*old(self) }),
    {
        self.mouse = at;
    }

    pub fn set_fullscreen(&mut self, on: bool)
        ensures
            *final(self) == full(*old(self), on),
    {
        self.fullscreen = on;
        self.hot = None;
        self.redraw();
    }

    fn set_hot(&mut self, hot: Option<Button>)
        ensures
            *final(self) == with_hot(*old(self), hot),
    {
        if !same_button(hot, self.hot) {
            self.hot = hot;
            self.redraw();
        }
    }

    fn set_card_hot(&mut self, item: Option<CardItem>)
        ensures
            *final(self) == with_card_hot(*old(self), item),
    {
        match self.card {
            Some(c) => if !same_item(c.hot, item) {
                self.card = Some(Card { hot: item, dirty: true, ..c });
                self.dirty = true;
            },
            None => {},
        }
    }

    fn set_bar(&mut self, hover: bool, tool: Option<Tool>)
        ensures
            *final(self) == with_bar(*old(self), hover, tool),
    {
        if hover != self.bar_hover {
            self.bar_hover = hover;
            self.dirty = true;
        }
        if !same_tool(tool, self.bar_hot) {
            self.bar_hot = tool;
            self.dirty = true;
        }
    }

    fn rotate(&mut self, back: bool)
        requires
            old(self).wf(),
        ensures
            *final(self) == turned(*old(self), back),
    {
        self.rot = crate::turn::turn(self.rot, back);
        self.fit = true;
        self.redraw();
    }

    fn toggle(&mut self, item: CardItem)
        ensures
            *final(self) == taken(*old(self), Command::Toggle(item)),
    {
        proof {
            reveal(taken);
        }
        match self.card {
            Some(c) => {
                let mut c = c;
                match item {
                    CardItem::Install => {
                        c.install = match c.install {
                            Some(v) => Some(!v),
                            None => None,
                        };
                        c.dirty = true;
                    },
                    CardItem::Autostart => {
                        c.autostart = !c.autostart;
                        c.dirty = true;
                    },
                    CardItem::Default => {
                        c.default = !c.default;
                        c.dirty = true;
                    },
                    _ => {},
                }
                self.card = Some(c);
                self.dirty = true;
            },
            None => {},
        }
    }

    fn hover(&mut self, at: Point, hover: bool, tool: Option<Tool>, hot: Option<Button>)
        ensures
            *final(self) == taken(*old(self), Command::Hover { at, hover, tool, hot }),
    {
        proof {
            reveal(taken);
        }
        self.set_bar(hover, tool);
        if self.drag.is_some() {
            self.drag = Some(at);
            self.dirty = true;
        }
        self.mouse = at;
        self.set_hot(hot);
    }

    fn leave(&mut self)
        ensures
            *final(self) == taken(*old(self), Command::Leave),
    {
        proof {
            reveal(taken);
        }
        if self.bar_hover || self.bar_hot.is_some() {
            self.bar_hover = false;
            self.bar_hot = None;
            self.dirty = true;
        }
        if self.hot.is_some() && self.pressed.is_none() {
            self.hot = None;
            self.redraw();
        }
    }

    fn let_go(&mut self, click: Click)
        ensures
            *final(self) == taken(*old(self), Command::Release { click }),
    {
        proof {
            reveal(taken);
        }
        self.drag = None;
        if self.pressed.is_some() {
            self.pressed = None;
            self.redraw();
        }
    }

    fn use_tool(&mut self, t: Tool)
        requires
            old(self).wf(),
        ensures
            *final(self) == taken(*old(self), Command::UseTool(t)),
    {
        proof {
            reveal(taken);
        }
        match t {
            Tool::Fit => {
                self.fit = true;
                self.redraw();
            },
            Tool::Rotate => self.rotate(false),
            Tool::Fullscreen => {
                let on: bool = !self.fullscreen;
                self.set_fullscreen(on);
            },
            _ => self.dirty = true,
        }
    }

    fn change_opacity(&mut self, up: bool)
        requires
            old(self).wf(),
        ensures
            *final(self) == taken(*old(self), Command::Opacity { up }),
    {
        proof {
            reveal(taken);
        }
        if up {
            self.opacity = if self.opacity > 90 {
                100
            } else {
                self.opacity + 10
            };
        } else {
            self.opacity = if self.opacity < 20 {
                10
            } else {
                self.opacity - 10
            };
        }
    }

    /// Take a command.
    #[verifier::rlimit(30)]
    pub fn take(&mut self, c: Command)
        requires
            old(self).wf(),
            fits(c),
        ensures
            *final(self) == taken(*old(self), c),
            final(self).wf(),
    {
        proof {
            reveal(taken);
        }
        match c {
            Command::Resize(w, h) => {
                self.w = w;
                self.h = h;
                self.redraw();
            },
            Command::Repaint => self.dirty = true,
            Command::Dpi(d) => {
                self.dpi = d;
                self.redraw();
            },
            Command::CardHover { at, item, hot } => {
                self.pointer_at(at);
                self.set_card_hot(item);
                self.set_hot(hot);
            },
            Command::Toggle(item) => self.toggle(item),
            Command::Hover { at, hover, tool, hot } => self.hover(at, hover, tool, hot),
            Command::Leave => self.leave(),
            Command::UseTool(t) => self.use_tool(t),
            Command::Press(b) => {
                self.pressed = Some(b);
                self.redraw();
            },
            Command::Grab(p) => self.drag = Some(p),
            Command::Release { click } => self.let_go(click),
            Command::Fit => {
                self.fit = true;
                self.redraw();
            },
            Command::Fullscreen(on) => self.set_fullscreen(on),
            Command::Turn { back } => self.rotate(back),
            Command::Info => {
                self.info = !self.info;
                self.redraw();
            },
            Command::Ground => {
                self.ground = (self.ground + 1) % 4;
                self.dirty = true;
            },
            Command::Topmost => self.topmost = !self.topmost,
            Command::Opacity { up } => self.change_opacity(up),
            _ => {},
        }
    }
}

/// Fullscreen and back: the window is as it was, but for the caption button under the pointer.
pub proof fn law_fullscreen_returns(ui: Ui)
    ensures
        full(full(ui, !ui.fullscreen), ui.fullscreen) == redrawn(Ui { hot: None, ..ui }),
{
}

/// Four turns the same way show the photo as it was.
pub proof fn law_four_turns(ui: Ui, back: bool)
    requires
        ui.wf(),
    ensures
        turned(turned(turned(turned(ui, back), back), back), back).rot == ui.rot,
{
}

/// A turn and a turn back cancel out.
pub proof fn law_turn_back(ui: Ui, back: bool)
    requires
        ui.wf(),
    ensures
        turned(turned(ui, back), !back).rot == ui.rot,
{
}

/// Four times the key gives the ground back.
pub proof fn law_grounds_go_round(ui: Ui)
    requires
        ui.wf(),
    ensures
        ({
            let g = Command::Ground;
            taken(taken(taken(taken(ui, g), g), g), g).ground == ui.ground
        }),
{
    reveal(taken);
}

/// The window is never less than a tenth opaque, nor more than wholly.
pub proof fn law_opacity_stays(ui: Ui, up: bool)
    requires
        ui.wf(),
    ensures
        10 <= taken(ui, Command::Opacity { up }).opacity <= 100,
{
    reveal(taken);
}

/// The pointer is followed wherever it moves, the setup card open or not: a key that zooms then
/// zooms at it.
pub proof fn law_pointer_followed(ui: Ui, x: i32, y: i32, a: Around)
    ensures
        taken(ui, asked(ui, Ev::MouseMove(x, y), a)).mouse == (Point { x, y }),
{
    reveal(asked);
    reveal(taken);
}

/// A box of the card clicked twice is as it was.
pub proof fn law_toggle_twice(c: Card, item: CardItem)
    ensures
        toggled(toggled(c, item), item).install == c.install,
        toggled(toggled(c, item), item).autostart == c.autostart,
        toggled(toggled(c, item), item).default == c.default,
{
}

/// A key asks for what it stands for when it goes down, and for nothing when it comes up; Shift counts
/// for it, and nothing else around it.
pub proof fn law_keys_go_down(ui: Ui, vk: u16, repeat: bool, a: Around, b: Around)
    ensures
        asked(ui, Ev::Key { vk, down: true, repeat }, a) == keyed(ui, vk, repeat, a.shift),
        asked(ui, Ev::Key { vk, down: false, repeat }, a) == Command::Nothing,
        a.shift == b.shift ==> asked(ui, Ev::Key { vk, down: true, repeat }, a) == asked(
            ui,
            Ev::Key { vk, down: true, repeat },
            b,
        ),
{
    reveal(asked);
}

/// The wheel. Set to flip, up is the image before and down the one after, so that opposite turns undo
/// each other; set to zoom, it zooms at its own point. Ctrl makes the one the other. Over the setup card
/// it does nothing.
pub proof fn law_wheel(ui: Ui, delta: i32, x: i32, y: i32, a: Around)
    ensures
        ({
            let r = asked(ui, Ev::Wheel { delta, x, y }, a);
            let flips = if a.ctrl {
                a.wheel_zoom
            } else {
                !a.wheel_zoom
            };
            &&& ui.card is Some ==> r == Command::Nothing
            &&& ui.card is None && flips && delta > 0 ==> r == (Command::Step { back: true })
            &&& ui.card is None && flips && delta < 0 ==> r == (Command::Step { back: false })
            &&& ui.card is None && flips && delta == 0 ==> r == Command::Nothing
            &&& ui.card is None && !flips ==> r == (Command::Wheel { delta, at: Point { x, y } })
            &&& ui.card is None && flips && delta > 0 ==> {
                let o = asked(ui, Ev::Wheel { delta: (-delta) as i32, x, y }, a);
                r is Step && o is Step && r->Step_back != o->Step_back
            }
        }),
{
    reveal(asked);
}

/// The buttons on the side of a mouse flip, the middle one goes between fitted and actual size at its own
/// point, the right one does nothing; and of all but the left one only the press counts.
pub proof fn law_mouse_buttons(ui: Ui, b: Btn, down: bool, x: i32, y: i32, a: Around)
    ensures
        ({
            let r = asked(ui, Ev::Button { b, down, x, y }, a);
            &&& down && b == Btn::Back ==> r == (Command::Step { back: true })
            &&& down && b == Btn::Forward ==> r == (Command::Step { back: false })
            &&& down && b == Btn::Middle && ui.fit ==> r == Command::ActualAt(Point { x, y })
            &&& down && b == Btn::Middle && !ui.fit ==> r == Command::Fit
            &&& b == Btn::Right ==> r == Command::Nothing
            &&& !down && b != Btn::Left ==> r == Command::Nothing
        }),
{
    reveal(asked);
}

/// The left button's press. On the photo it takes hold of it; on a tool it uses it; on a caption button
/// it presses that; on the setup card it ticks a box, applies or closes. Nothing of the photo can be got
/// at through the card.
pub proof fn law_left_press(ui: Ui, x: i32, y: i32, a: Around)
    ensures
        ({
            let r = asked(ui, Ev::Button { b: Btn::Left, down: true, x, y }, a);
            let on = ui.hot_under(x as int, y as int);
            let over_photo = on is None && ui.card is None;
            &&& over_photo && a.tool is None ==> r == Command::Grab(Point { x, y })
            &&& ui.card is None && a.tool is Some ==> r == Command::UseTool(a.tool->0)
            &&& a.tool is None && on is Some ==> r == Command::Press(on->0)
            &&& on is None && ui.card is Some ==> {
                &&& a.item == Some(CardItem::Apply) ==> r == Command::ApplySetup
                &&& a.item == Some(CardItem::Skip) ==> r == Command::CloseSetup
                &&& a.item == Some(CardItem::Install) ==> r == Command::Toggle(CardItem::Install)
                &&& a.item == Some(CardItem::Autostart) ==> r == Command::Toggle(CardItem::Autostart)
                &&& a.item == Some(CardItem::Default) ==> r == Command::Toggle(CardItem::Default)
                &&& a.item is None ==> r == Command::Nothing
            }
        }),
{
    reveal(asked);
}

/// A caption button is clicked by a press on it and a release on that same button: the release of one
/// that was pressed elsewhere, or of none, clicks nothing. In fullscreen there are none.
pub proof fn law_caption_clicks(ui: Ui, x: i32, y: i32, a: Around, b: Button)
    ensures
        ({
            let r = asked(ui, Ev::Button { b: Btn::Left, down: false, x, y }, a);
            let over = ui.hot_under(x as int, y as int);
            let c = r->Release_click;
            &&& r is Release
            &&& ui.pressed is None || over != ui.pressed ==> c == Click::Nothing
            &&& ui.fullscreen ==> c == Click::Nothing
            &&& ui.pressed == Some(b) && over == Some(b) ==> {
                &&& b == Button::Min ==> c == Click::Minimize
                &&& b == Button::Max ==> c == Click::Maximize
                &&& b == Button::Close ==> c == Click::Close
                &&& b == Button::Settings && ui.card is None ==> c == Click::OpenSetup
                &&& b == Button::Settings && ui.card is Some ==> c == Click::CloseSetup
            }
            &&& taken(ui, r).pressed is None && taken(ui, r).drag is None
        }),
{
    reveal(asked);
    reveal(taken);
}

/// A double click on the photo alone goes fullscreen or back; anywhere else it is one more press.
pub proof fn law_double_click(ui: Ui, x: i32, y: i32, a: Around)
    ensures
        ({
            let r = asked(ui, Ev::DoubleClick(x, y), a);
            let photo = ui.card is None && a.tool is None && ui.hot_under(x as int, y as int) is None;
            &&& photo ==> r == Command::Fullscreen(!ui.fullscreen)
            &&& !photo ==> r == asked(ui, Ev::Button { b: Btn::Left, down: true, x, y }, a)
        }),
{
    reveal(asked);
}

/// Everything else that happens to the window is handed on as it came.
pub proof fn law_handed_on(ui: Ui, w: u32, h: u32, dpi: u32, p: u64, o: Option<u64>, c: TrayCmd, t: u64, a: Around)
    ensures
        asked(ui, Ev::Resize(w, h), a) == Command::Resize(w, h),
        asked(ui, Ev::Paint, a) == Command::Repaint,
        asked(ui, Ev::Dpi(dpi), a) == Command::Dpi(dpi),
        asked(ui, Ev::Loaded, a) == Command::Poll,
        asked(ui, Ev::MouseLeave, a) == Command::Leave,
        asked(ui, Ev::Drop(p), a) == Command::Drop(p),
        asked(ui, Ev::Open(o), a) == Command::Open(o),
        asked(ui, Ev::Close, a) == Command::Close,
        asked(ui, Ev::Quit, a) == Command::Quit,
        asked(ui, Ev::Tray(c), a) == Command::Tray(c),
        asked(ui, Ev::Timer(t), a) == Command::Nothing,
        taken(ui, Command::Resize(w, h)).w == w && taken(ui, Command::Resize(w, h)).h == h,
        taken(ui, Command::Dpi(dpi)).dpi == dpi,
        taken(ui, Command::Resize(w, h)).dirty && taken(ui, Command::Dpi(dpi)).dirty && taken(
            ui,
            Command::Repaint,
        ).dirty,
{
    reveal(asked);
    reveal(taken);
}

/// A photo that was taken hold of follows the pointer until it is let go; the bar does not come up
/// meanwhile. Without that the pointer moves nothing.
pub proof fn law_photo_is_dragged(ui: Ui, from: Point, to: Point, a: Around, click: Click)
    requires
        ui.card is None,
    ensures
        ({
            let held = taken(ui, Command::Grab(from));
            let moved = taken(held, asked(held, Ev::MouseMove(to.x, to.y), a));
            let gone = taken(moved, Command::Release { click });
            let free = taken(gone, asked(gone, Ev::MouseMove(from.x, from.y), a));
            &&& held.drag == Some(from)
            &&& moved.drag == Some(to) && moved.dirty && moved.mouse == to && !moved.bar_hover
            &&& gone.drag is None
            &&& free.drag is None && free.mouse == from
        }),
{
    reveal(asked);
    reveal(taken);
}

/// The bar comes up while the pointer is near the bottom edge, and goes with it.
pub proof fn law_bar_comes_up(ui: Ui, x: i32, y: i32, a: Around)
    requires
        ui.card is None,
        ui.drag is None,
    ensures
        ({
            let after = taken(ui, asked(ui, Ev::MouseMove(x, y), a));
            let left = taken(after, Command::Leave);
            &&& after.bar_hover == (y >= ui.h - at_dpi(96, ui.dpi))
            &&& after.bar_hot == a.tool
            &&& after.hot == ui.hot_under(x as int, y as int)
            &&& !left.bar_hover && left.bar_hot is None
            &&& left.hot is None || left.pressed is Some
            &&& after.bar_hover ==> after.bar_shows(true, true)
            &&& !ui.fullscreen ==> after.bar_shows(true, false)
            &&& !after.bar_hover && ui.fullscreen ==> !after.bar_shows(true, false)
            &&& !after.bar_hover ==> !after.bar_shows(true, true)
            &&& !after.bar_shows(false, false)
        }),
{
    reveal(asked);
    reveal(taken);
}

/// One command, one change: fitting, going fullscreen, the info line, the ground, staying on top and
/// opacity each turn their own knob and no other of these; so do the tools that stand for them.
pub proof fn law_own_knob(ui: Ui, on: bool, up: bool, t: Tool)
    requires
        ui.wf(),
    ensures
        ({
            let fit = taken(ui, Command::Fit);
            let full = taken(ui, Command::Fullscreen(on));
            let info = taken(ui, Command::Info);
            let ground = taken(ui, Command::Ground);
            let top = taken(ui, Command::Topmost);
            let see = taken(ui, Command::Opacity { up });
            &&& fit.fit && fit == (Ui { fit: true, dirty: true, chrome_dirty: true, ..ui })
            &&& full.fullscreen == on && full == (Ui {
                fullscreen: on,
                hot: None,
                dirty: true,
                chrome_dirty: true,
                ..ui
            })
            &&& info.info != ui.info && info == (Ui {
                info: info.info,
                dirty: true,
                chrome_dirty: true,
                ..ui
            })
            &&& ground == (Ui { ground: ground.ground, dirty: true, ..ui })
            &&& ui.ground == 0 ==> ground.ground == 1
            &&& ui.ground == 1 ==> ground.ground == 2
            &&& ui.ground == 2 ==> ground.ground == 3
            &&& ui.ground == 3 ==> ground.ground == 0
            &&& top.topmost != ui.topmost && top == (Ui { topmost: top.topmost, ..ui })
            &&& see == (Ui { opacity: see.opacity, ..ui })
            &&& up && ui.opacity <= 90 ==> see.opacity == ui.opacity + 10
            &&& up && ui.opacity > 90 ==> see.opacity == 100
            &&& !up && ui.opacity >= 20 ==> see.opacity == ui.opacity - 10
            &&& !up && ui.opacity < 20 ==> see.opacity == 10
            &&& taken(ui, Command::UseTool(Tool::Fit)) == fit
            &&& taken(ui, Command::UseTool(Tool::Fullscreen)) == taken(
                ui,
                Command::Fullscreen(!ui.fullscreen),
            )
            &&& taken(ui, Command::UseTool(Tool::Rotate)) == taken(ui, Command::Turn { back: false })
            &&& t != Tool::Fit && t != Tool::Rotate && t != Tool::Fullscreen ==> taken(
                ui,
                Command::UseTool(t),
            ) == (Ui { dirty: true, ..ui })
        }),
{
    reveal(taken);
}

/// What the photos decide leaves the looks alone.
pub proof fn law_looks_stay(ui: Ui, back: bool, up: bool, delta: i32, at: Point, p: u64, o: Option<u64>)
    ensures
        taken(ui, Command::Nothing) == ui,
        taken(ui, Command::Step { back }) == ui,
        taken(ui, Command::First) == ui,
        taken(ui, Command::Last) == ui,
        taken(ui, Command::Zoom { up, at }) == ui,
        taken(ui, Command::Wheel { delta, at }) == ui,
        taken(ui, Command::Actual) == ui,
        taken(ui, Command::ActualAt(at)) == ui,
        taken(ui, Command::Delete) == ui,
        taken(ui, Command::Poll) == ui,
        taken(ui, Command::Drop(p)) == ui,
        taken(ui, Command::Open(o)) == ui,
        taken(ui, Command::Close) == ui,
        taken(ui, Command::Detach) == ui,
{
    reveal(taken);
}

/// A turn clockwise shows at (x, y) of the screen what was at (y, 1 - x) before, and a turn back what was
/// at (1 - y, x), whatever the photo's own orientation; and the photo is fitted anew.
pub proof fn law_turns_the_photo(ui: Ui, orient: u8, x: int, y: int)
    requires
        ui.wf(),
        0 <= x <= 1,
        0 <= y <= 1,
    ensures
        ({
            let shown = |u: Ui| quarters(exif(orient), u.rot as nat);
            let on = taken(ui, Command::Turn { back: false });
            let back = taken(ui, Command::Turn { back: true });
            &&& on.fit && back.fit && on.rot < 4 && back.rot < 4
            &&& shown(on).at(x, y) == shown(ui).at(y, 1 - x)
            &&& shown(back).at(x, y) == shown(ui).at(1 - y, x)
        }),
{
    reveal(taken);
    let on = taken(ui, Command::Turn { back: false });
    let back = taken(ui, Command::Turn { back: true });
    let t = quarters(exif(orient), ui.rot as nat);
    let s = quarters(exif(orient), back.rot as nat);
    crate::turn::lemma_one_more(orient, ui.rot);
    crate::turn::law_quarter(t, x, y);
    assert(on.rot == (ui.rot + 1) % 4);
    crate::turn::lemma_one_more(orient, back.rot);
    assert((back.rot + 1) % 4 == ui.rot as int);
    assert(quarter(s) == t);
    crate::turn::law_quarter(s, 1 - y, x);
    assert(1 - (1 - y) == y);
}

/// A box of the setup card that is clicked is that box and no other; one that is not there stays so.
pub proof fn law_box_is_its_own(ui: Ui, c: Card)
    requires
        ui.card == Some(c),
    ensures
        ({
            let a = taken(ui, Command::Toggle(CardItem::Install)).card->0;
            let b = taken(ui, Command::Toggle(CardItem::Autostart)).card->0;
            let d = taken(ui, Command::Toggle(CardItem::Default)).card->0;
            &&& c.install is None ==> a.install is None
            &&& c.install matches Some(v) ==> a.install == Some(!v)
            &&& a.autostart == c.autostart && a.default == c.default && a.dirty
            &&& b.autostart != c.autostart && b.install == c.install && b.default == c.default
                && b.dirty
            &&& d.default != c.default && d.install == c.install && d.autostart == c.autostart
                && d.dirty
        }),
{
    reveal(taken);
}

/// In fullscreen there is no caption to point at; else its buttons are where they are drawn.
pub proof fn law_caption_pointed_at(ui: Ui, x: int, y: int)
    ensures
        ui.fullscreen ==> ui.hot_under(x, y) is None,
        !ui.fullscreen ==> ui.hot_under(x, y) == button_under(x, y, ui.w as int, ui.dpi),
{
}

/// The pointer over the setup card marks what it is over, there and in the caption, and nothing else.
pub proof fn law_card_pointed_at(ui: Ui, c: Card, x: i32, y: i32, a: Around)
    requires
        ui.card == Some(c),
    ensures
        ({
            let u = taken(ui, asked(ui, Ev::MouseMove(x, y), a));
            &&& u.card is Some && u.card->0.hot == a.item
            &&& u.card->0 == (Card { hot: a.item, dirty: u.card->0.dirty, ..c })
            &&& u.mouse == (Point { x, y })
            &&& u.hot == ui.hot_under(x as int, y as int)
            &&& a.item != c.hot ==> u.card->0.dirty && u.dirty
            &&& u.hot != ui.hot ==> u.dirty && u.chrome_dirty
            &&& u == (Ui {
                card: u.card,
                mouse: u.mouse,
                hot: u.hot,
                dirty: u.dirty,
                chrome_dirty: u.chrome_dirty,
                ..ui
            })
        }),
{
    reveal(asked);
    reveal(taken);
}

/// A caption button is down from its press to the release; a new size and a new resolution are taken as
/// they come.
pub proof fn law_taken_as_it_comes(ui: Ui, b: Button, click: Click, w: u32, h: u32, dpi: u32)
    ensures
        ({
            let down = taken(ui, Command::Press(b));
            let up = taken(down, Command::Release { click });
            let sized = taken(ui, Command::Resize(w, h));
            let scaled = taken(ui, Command::Dpi(dpi));
            &&& down == (Ui { pressed: Some(b), dirty: true, chrome_dirty: true, ..ui })
            &&& up == (Ui { pressed: None, drag: None, ..down })
            &&& sized == (Ui { w, h, dirty: true, chrome_dirty: true, ..ui })
            &&& scaled == (Ui { dpi, dirty: true, chrome_dirty: true, ..ui })
            &&& taken(ui, Command::Repaint) == (Ui { dirty: true, ..ui })
        }),
{
    reveal(taken);
}

} // verus!
