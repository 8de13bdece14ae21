//! The window: what its messages mean, where its edges are, and the queue between the window
//! procedure and the viewer.
//!
//! The window procedure never calls the viewer re-entrantly; it queues. The system calls it from
//! inside our own calls, and the viewer would be borrowed twice. The queue is drained at once when
//! the viewer is not running, which is also what keeps frames coming during the system's modal
//! loops.

use crate::geom::{Placement, Rect};
use crate::loader::WM_LOADED;
use crate::text::utf16;
use vstd::prelude::*;

verus! {

#[derive(Clone, Copy, PartialEq, Eq, Structural, Debug)]
pub enum Btn {
    Left,
    Right,
    Middle,
    Back,
    Forward,
}

#[derive(Clone, Copy, PartialEq, Eq, Structural, Debug)]
pub enum TrayCmd {
    Open,
    OpenFile,
    Settings,
    Exit,
}

/// What happened. Files are named by their numbers.
#[allow(inconsistent_fields)]
#[derive(Clone, Copy, PartialEq, Eq, Structural, Debug)]
pub enum Ev {
    /// The client area's new size; never zero (a minimised window says nothing).
    Resize(u32, u32),
    Key { vk: u16, down: bool, repeat: bool },
    MouseMove(i32, i32),
    MouseLeave,
    Button { b: Btn, down: bool, x: i32, y: i32 },
    DoubleClick(i32, i32),
    /// Wheel travel, 120 a notch (positive away from the user), at a client point.
    Wheel { delta: i32, x: i32, y: i32 },
    Drop(u64),
    /// Something arrived from the decoding threads.
    Loaded,
    Paint,
    Dpi(u32),
    /// Another launch handed over its file (`None`: launched with no file): show the window.
    Open(Option<u64>),
    /// The close button or Alt+F4: hidden when resident, closed otherwise.
    Close,
    /// Exit for real.
    Quit,
    /// The tray icon: left click (open), or a command from its menu.
    Tray(TrayCmd),
    /// A timer went off.
    Timer(u64),
}

pub const WM_DESTROY: u32 = 0x0002;

pub const WM_SIZE: u32 = 0x0005;

pub const WM_PAINT: u32 = 0x000f;

pub const WM_CLOSE: u32 = 0x0010;

pub const WM_ERASEBKGND: u32 = 0x0014;

pub const WM_SETCURSOR: u32 = 0x0020;

pub const WM_GETMINMAXINFO: u32 = 0x0024;

pub const WM_COPYDATA: u32 = 0x004a;

pub const WM_NCCALCSIZE: u32 = 0x0083;

pub const WM_NCHITTEST: u32 = 0x0084;

pub const WM_KEYDOWN: u32 = 0x0100;

pub const WM_KEYUP: u32 = 0x0101;

pub const WM_SYSKEYDOWN: u32 = 0x0104;

pub const WM_SYSKEYUP: u32 = 0x0105;

pub const WM_SYSCHAR: u32 = 0x0106;

pub const WM_SYSCOMMAND: u32 = 0x0112;

pub const WM_TIMER: u32 = 0x0113;

pub const WM_MOUSEMOVE: u32 = 0x0200;

pub const WM_LBUTTONDOWN: u32 = 0x0201;

pub const WM_LBUTTONUP: u32 = 0x0202;

pub const WM_LBUTTONDBLCLK: u32 = 0x0203;

pub const WM_RBUTTONDOWN: u32 = 0x0204;

pub const WM_RBUTTONUP: u32 = 0x0205;

pub const WM_MBUTTONDOWN: u32 = 0x0207;

pub const WM_MBUTTONUP: u32 = 0x0208;

pub const WM_MOUSEWHEEL: u32 = 0x020a;

pub const WM_XBUTTONDOWN: u32 = 0x020b;

pub const WM_XBUTTONUP: u32 = 0x020c;

pub const WM_DROPFILES: u32 = 0x0233;

pub const WM_MOUSELEAVE: u32 = 0x02a3;

pub const WM_DPICHANGED: u32 = 0x02e0;

pub const WM_QUIT_HOST: u32 = 0x8002;

pub const WM_TRAY: u32 = 0x8005;

pub const WM_ADD_TAB: u32 = 0x8006;

pub const SIZE_MINIMIZED: u32 = 1;

pub const SC_KEYMENU: u32 = 0xf100;

pub const HTCLIENT: u32 = 1;

pub const HTCAPTION: u32 = 2;

pub const HTLEFT: u32 = 10;

pub const HTRIGHT: u32 = 11;

pub const HTTOP: u32 = 12;

pub const HTTOPLEFT: u32 = 13;

pub const HTTOPRIGHT: u32 = 14;

pub const HTBOTTOM: u32 = 15;

pub const HTBOTTOMLEFT: u32 = 16;

pub const HTBOTTOMRIGHT: u32 = 17;

/// The mark of a file handed from one launch to another.
pub const COPYDATA_OPEN: u64 = 0x5345_4549;

pub const CLASS: &'static str = "Glint";

/// A detached window goes under a class of its own: the resident process is looked up by class, and
/// a file must never be handed to a reference window instead.
pub const CLASS_DETACHED: &'static str = "Glint.Window";

/// A text in UTF-16 with the NUL that ends it.
pub fn wide(s: &str) -> (r: Vec<u16>)
    ensures
        r@ == utf16(s@).push(0),
{
    crate::text::wide(s)
}

/// The low 16 bits.
pub open spec fn low16(l: u64) -> int {
    l as int % 0x1_0000
}

/// The 16 bits above them.
pub open spec fn high16(l: u64) -> int {
    l as int / 0x1_0000 % 0x1_0000
}

/// 16 bits as a signed number.
pub open spec fn signed16(n: int) -> i32 {
    if n < 0x8000 {
        n as i32
    } else {
        (n - 0x1_0000) as i32
    }
}

/// The x of a message's point.
pub fn lo(l: u64) -> (r: i32)
    ensures
        r == signed16(low16(l)),
{
    let n: i32 = (l % 0x1_0000) as i32;
    if n < 0x8000 {
        n
    } else {
        n - 0x1_0000
    }
}

/// The y of a message's point.
pub fn hi(l: u64) -> (r: i32)
    ensures
        r == signed16(high16(l)),
{
    let n: i32 = (l / 0x1_0000 % 0x1_0000) as i32;
    if n < 0x8000 {
        n
    } else {
        n - 0x1_0000
    }
}

/// What to do about a message.
#[allow(inconsistent_fields)]
#[derive(Clone, Copy, PartialEq, Eq, Structural, Debug)]
pub enum Reaction {
    /// Not ours: the system's own handling.
    Default,
    /// Nothing to do; the message is answered with the number.
    Answer(i64),
    /// Queue the event, answer 0.
    Post(Ev),
    /// A file from another launch, in the data the message points at.
    HandedOver,
    /// Leave the message loop.
    Leave,
    /// The picture is valid; queue a paint.
    Paint,
    /// The client area is the whole window, less the invisible frame where maximised.
    TakeFrame { maximized: bool },
    HitTest,
    /// Say how small the window may be.
    MinSize,
    /// Take the place the system suggests, and queue the new dpi.
    Dpi(u32),
    /// Our cursor.
    Cursor,
    /// The pointer moved; ask to be told when it leaves, where that was not done yet.
    Move { x: i32, y: i32, track: bool },
    /// The pointer left.
    Left,
    /// A mouse button. The left one's press captures the mouse: a pan keeps following the hand off
    /// the window. Answered 1 for the buttons on the side.
    Button { b: Btn, down: bool, x: i32, y: i32, side: bool },
    /// The wheel, at a screen point.
    Wheel { delta: i32, x: i32, y: i32 },
    /// A key, queued; with Alt the system has a say too.
    Key { vk: u16, down: bool, repeat: bool, system: bool },
    /// Files dropped on the window.
    Dropped,
    /// The taskbar button comes back.
    AddTab,
    /// The tray icon's menu.
    TrayMenu,
    /// The notification area is new and empty.
    TrayAdd,
    /// Stop the timer, and queue that it went off.
    Timer(u64),
}

/// What a reaction depends on besides the message.
#[derive(Clone, Copy)]
pub struct Facts {
    /// A frame was drawn: past that the class brush must not erase under it.
    pub ready: bool,
    /// The pointer's leaving is being watched for.
    pub tracking: bool,
    pub maximized: bool,
    /// The message Explorer sends when it was restarted; zero for none.
    pub taskbar_created: u32,
}

/// A message of a mouse button.
pub open spec fn of_button(msg: u32) -> bool {
    msg == WM_LBUTTONDOWN || msg == WM_LBUTTONUP || msg == WM_RBUTTONDOWN || msg == WM_RBUTTONUP
        || msg == WM_MBUTTONDOWN || msg == WM_MBUTTONUP || msg == WM_XBUTTONDOWN || msg
        == WM_XBUTTONUP
}

pub open spec fn button_of(msg: u32, wparam: u64) -> (Btn, bool) {
    if msg == WM_LBUTTONDOWN {
        (Btn::Left, true)
    } else if msg == WM_LBUTTONUP {
        (Btn::Left, false)
    } else if msg == WM_RBUTTONDOWN {
        (Btn::Right, true)
    } else if msg == WM_RBUTTONUP {
        (Btn::Right, false)
    } else if msg == WM_MBUTTONDOWN {
        (Btn::Middle, true)
    } else if msg == WM_MBUTTONUP {
        (Btn::Middle, false)
    } else {
        (if high16(wparam) == 1 {
            Btn::Back
        } else {
            Btn::Forward
        }, msg == WM_XBUTTONDOWN)
    }
}

/// A tap of Alt or F10: it would move the keyboard into a menu we do not have. The other argument
/// is then zero or negative above its low 16 bits.
pub open spec fn alt_tap(wparam: u64, lparam: u64) -> bool {
    low16(wparam) / 16 * 16 == SC_KEYMENU && (lparam < 0x1_0000 || lparam
        >= 0x8000_0000_0000_0000)
}

/// None of the messages of the window itself.
pub open spec fn other(msg: u32, wparam: u64, lparam: u64, f: Facts) -> bool {
    &&& msg != WM_CLOSE && msg != WM_QUIT_HOST && msg != WM_COPYDATA && msg != WM_DESTROY
    &&& msg != WM_PAINT && msg != WM_NCHITTEST && msg != WM_SIZE && msg != WM_GETMINMAXINFO
    &&& msg != WM_DPICHANGED && msg != WM_MOUSEMOVE && msg != WM_MOUSELEAVE
    &&& msg != WM_LBUTTONDBLCLK && !of_button(msg) && msg != WM_MOUSEWHEEL && !of_key(msg)
    &&& msg != WM_SYSCHAR && msg != WM_DROPFILES && msg != WM_ADD_TAB && msg != WM_TRAY
    &&& !(msg == WM_ERASEBKGND && f.ready)
    &&& !(msg == WM_NCCALCSIZE && wparam != 0)
    &&& !(msg == WM_SETCURSOR && low16(lparam) == HTCLIENT)
    &&& !(msg == WM_SYSCOMMAND && alt_tap(wparam, lparam))
}

pub open spec fn of_key(msg: u32) -> bool {
    msg == WM_KEYDOWN || msg == WM_SYSKEYDOWN || msg == WM_KEYUP || msg == WM_SYSKEYUP
}

fn button_message(msg: u32, wparam: u64) -> (r: (Btn, bool))
    ensures
        r == button_of(msg, wparam),
{
    if msg == WM_LBUTTONDOWN {
        (Btn::Left, true)
    } else if msg == WM_LBUTTONUP {
        (Btn::Left, false)
    } else if msg == WM_RBUTTONDOWN {
        (Btn::Right, true)
    } else if msg == WM_RBUTTONUP {
        (Btn::Right, false)
    } else if msg == WM_MBUTTONDOWN {
        (Btn::Middle, true)
    } else if msg == WM_MBUTTONUP {
        (Btn::Middle, false)
    } else {
        (
            if wparam / 0x1_0000 % 0x1_0000 == 1 {
                Btn::Back
            } else {
                Btn::Forward
            },
            msg == WM_XBUTTONDOWN,
        )
    }
}

/// What a message means.
pub open spec fn reaction(msg: u32, wparam: u64, lparam: u64, f: Facts) -> Reaction {
    if msg == WM_CLOSE {
        Reaction::Post(Ev::Close)
    } else if msg == WM_QUIT_HOST {
        Reaction::Post(Ev::Quit)
    } else if msg == WM_COPYDATA {
        Reaction::HandedOver
    } else if msg == WM_DESTROY {
        Reaction::Leave
    } else if msg == WM_PAINT {
        Reaction::Paint
    } else if msg == WM_ERASEBKGND && f.ready {
        Reaction::Answer(1)
    } else if msg == WM_NCCALCSIZE && wparam != 0 {
        Reaction::TakeFrame { maximized: f.maximized }
    } else if msg == WM_NCHITTEST {
        Reaction::HitTest
    } else if msg == WM_SIZE {
        if wparam % 0x1_0000_0000 != SIZE_MINIMIZED && low16(lparam) > 0 && high16(lparam) > 0 {
            Reaction::Post(Ev::Resize(low16(lparam) as u32, high16(lparam) as u32))
        } else {
            Reaction::Answer(0)
        }
    } else if msg == WM_GETMINMAXINFO {
        Reaction::MinSize
    } else if msg == WM_DPICHANGED {
        Reaction::Dpi(low16(wparam) as u32)
    } else if msg == WM_SETCURSOR && low16(lparam) == HTCLIENT {
        Reaction::Cursor
    } else if msg == WM_MOUSEMOVE {
        Reaction::Move {
            x: signed16(low16(lparam)),
            y: signed16(high16(lparam)),
            track: !f.tracking,
        }
    } else if msg == WM_MOUSELEAVE {
        Reaction::Left
    } else if msg == WM_LBUTTONDBLCLK {
        Reaction::Post(Ev::DoubleClick(signed16(low16(lparam)), signed16(high16(lparam))))
    } else if of_button(msg) {
        Reaction::Button {
            b: button_of(msg, wparam).0,
            down: button_of(msg, wparam).1,
            x: signed16(low16(lparam)),
            y: signed16(high16(lparam)),
            side: msg == WM_XBUTTONDOWN || msg == WM_XBUTTONUP,
        }
    } else if msg == WM_MOUSEWHEEL {
        Reaction::Wheel {
            delta: signed16(high16(wparam)),
            x: signed16(low16(lparam)),
            y: signed16(high16(lparam)),
        }
    } else if of_key(msg) {
        Reaction::Key {
            vk: low16(wparam) as u16,
            down: msg == WM_KEYDOWN || msg == WM_SYSKEYDOWN,
            repeat: (msg == WM_KEYDOWN || msg == WM_SYSKEYDOWN) && lparam / 0x4000_0000 % 2 == 1,
            system: msg == WM_SYSKEYDOWN || msg == WM_SYSKEYUP,
        }
    } else if (msg == WM_SYSCOMMAND && alt_tap(wparam, lparam)) || msg == WM_SYSCHAR {
        Reaction::Answer(0)
    } else if msg == WM_DROPFILES {
        Reaction::Dropped
    } else if msg == WM_ADD_TAB {
        Reaction::AddTab
    } else if msg == WM_TRAY {
        if low16(lparam) == WM_LBUTTONUP {
            Reaction::Post(Ev::Tray(TrayCmd::Open))
        } else if low16(lparam) == WM_RBUTTONUP {
            Reaction::TrayMenu
        } else {
            Reaction::Answer(0)
        }
    } else if msg == f.taskbar_created && msg != 0 {
        Reaction::TrayAdd
    } else if msg == WM_TIMER {
        Reaction::Timer(wparam)
    } else if msg == WM_LOADED {
        Reaction::Post(Ev::Loaded)
    } else {
        Reaction::Default
    }
}

/// What a message means. `wparam` and `lparam` are its arguments, as bits.
pub fn wndproc(msg: u32, wparam: u64, lparam: u64, f: Facts) -> (r: Reaction)
    ensures
        r == reaction(msg, wparam, lparam, f),
        msg == WM_CLOSE ==> r == Reaction::Post(Ev::Close),
        msg == WM_QUIT_HOST ==> r == Reaction::Post(Ev::Quit),
        msg == WM_COPYDATA ==> r == Reaction::HandedOver,
        msg == WM_DESTROY ==> r == Reaction::Leave,
        msg == WM_PAINT ==> r == Reaction::Paint,
        msg == WM_ERASEBKGND && f.ready ==> r == Reaction::Answer(1),
        msg == WM_NCCALCSIZE && wparam != 0 ==> r == (Reaction::TakeFrame {
            maximized: f.maximized,
        }),
        msg == WM_NCHITTEST ==> r == Reaction::HitTest,
        msg == WM_SIZE ==> r == (if wparam % 0x1_0000_0000 != SIZE_MINIMIZED && low16(lparam) > 0
            && high16(lparam) > 0 {
            Reaction::Post(Ev::Resize(low16(lparam) as u32, high16(lparam) as u32))
        } else {
            Reaction::Answer(0)
        }),
        msg == WM_GETMINMAXINFO ==> r == Reaction::MinSize,
        msg == WM_DPICHANGED ==> r == Reaction::Dpi(low16(wparam) as u32),
        msg == WM_SETCURSOR && low16(lparam) == HTCLIENT ==> r == Reaction::Cursor,
        msg == WM_MOUSEMOVE ==> r == (Reaction::Move {
            x: signed16(low16(lparam)),
            y: signed16(high16(lparam)),
            track: !f.tracking,
        }),
        msg == WM_MOUSELEAVE ==> r == Reaction::Left,
        msg == WM_LBUTTONDBLCLK ==> r == Reaction::Post(
            Ev::DoubleClick(signed16(low16(lparam)), signed16(high16(lparam))),
        ),
        of_button(msg) ==> r == (Reaction::Button {
            b: button_of(msg, wparam).0,
            down: button_of(msg, wparam).1,
            x: signed16(low16(lparam)),
            y: signed16(high16(lparam)),
            side: msg == WM_XBUTTONDOWN || msg == WM_XBUTTONUP,
        }),
        msg == WM_MOUSEWHEEL ==> r == (Reaction::Wheel {
            delta: signed16(high16(wparam)),
            x: signed16(low16(lparam)),
            y: signed16(high16(lparam)),
        }),
        of_key(msg) ==> r == (Reaction::Key {
            vk: low16(wparam) as u16,
            down: msg == WM_KEYDOWN || msg == WM_SYSKEYDOWN,
            repeat: (msg == WM_KEYDOWN || msg == WM_SYSKEYDOWN) && lparam / 0x4000_0000 % 2 == 1,
            system: msg == WM_SYSKEYDOWN || msg == WM_SYSKEYUP,
        }),
        msg == WM_SYSCOMMAND && alt_tap(wparam, lparam) ==> r == Reaction::Answer(0),
        msg == WM_SYSCHAR ==> r == Reaction::Answer(0),
        msg == WM_DROPFILES ==> r == Reaction::Dropped,
        msg == WM_ADD_TAB ==> r == Reaction::AddTab,
        msg == WM_TRAY ==> r == (if low16(lparam) == WM_LBUTTONUP {
            Reaction::Post(Ev::Tray(TrayCmd::Open))
        } else if low16(lparam) == WM_RBUTTONUP {
            Reaction::TrayMenu
        } else {
            Reaction::Answer(0)
        }),
        other(msg, wparam, lparam, f) ==> r == (if msg == f.taskbar_created && msg != 0 {
            Reaction::TrayAdd
        } else if msg == WM_TIMER {
            Reaction::Timer(wparam)
        } else if msg == WM_LOADED {
            Reaction::Post(Ev::Loaded)
        } else {
            Reaction::Default
        }),
{
    let low: u64 = lparam % 0x1_0000;
    let high: u64 = lparam / 0x1_0000 % 0x1_0000;
    if msg == WM_CLOSE {
        Reaction::Post(Ev::Close)
    } else if msg == WM_QUIT_HOST {
        Reaction::Post(Ev::Quit)
    } else if msg == WM_COPYDATA {
        Reaction::HandedOver
    } else if msg == WM_DESTROY {
        Reaction::Leave
    } else if msg == WM_PAINT {
        Reaction::Paint
    } else if msg == WM_ERASEBKGND && f.ready {
        Reaction::Answer(1)
    } else if msg == WM_NCCALCSIZE && wparam != 0 {
        Reaction::TakeFrame { maximized: f.maximized }
    } else if msg == WM_NCHITTEST {
        Reaction::HitTest
    } else if msg == WM_SIZE {
        if wparam % 0x1_0000_0000 != SIZE_MINIMIZED as u64 && low > 0 && high > 0 {
            Reaction::Post(Ev::Resize(low as u32, high as u32))
        } else {
            Reaction::Answer(0)
        }
    } else if msg == WM_GETMINMAXINFO {
        Reaction::MinSize
    } else if msg == WM_DPICHANGED {
        Reaction::Dpi((wparam % 0x1_0000) as u32)
    } else if msg == WM_SETCURSOR && low == HTCLIENT as u64 {
        Reaction::Cursor
    } else if msg == WM_MOUSEMOVE {
        Reaction::Move { x: lo(lparam), y: hi(lparam), track: !f.tracking }
    } else if msg == WM_MOUSELEAVE {
        Reaction::Left
    } else if msg == WM_LBUTTONDBLCLK {
        Reaction::Post(Ev::DoubleClick(lo(lparam), hi(lparam)))
    } else if msg == WM_LBUTTONDOWN || msg == WM_LBUTTONUP || msg == WM_RBUTTONDOWN || msg
        == WM_RBUTTONUP || msg == WM_MBUTTONDOWN || msg == WM_MBUTTONUP || msg == WM_XBUTTONDOWN
        || msg == WM_XBUTTONUP {
        let (b, down): (Btn, bool) = button_message(msg, wparam);
        Reaction::Button {
            b,
            down,
            x: lo(lparam),
            y: hi(lparam),
            side: msg == WM_XBUTTONDOWN || msg == WM_XBUTTONUP,
        }
    } else if msg == WM_MOUSEWHEEL {
        Reaction::Wheel { delta: hi(wparam), x: lo(lparam), y: hi(lparam) }
    } else if msg == WM_KEYDOWN || msg == WM_SYSKEYDOWN || msg == WM_KEYUP || msg == WM_SYSKEYUP {
        let down: bool = msg == WM_KEYDOWN || msg == WM_SYSKEYDOWN;
        Reaction::Key {
            vk: (wparam % 0x1_0000) as u16,
            down,
            repeat: down && lparam / 0x4000_0000 % 2 == 1,
            system: msg == WM_SYSKEYDOWN || msg == WM_SYSKEYUP,
        }
    } else if msg == WM_SYSCOMMAND && (wparam % 0x1_0000) / 16 * 16 == SC_KEYMENU as u64 && (lparam
        < 0x1_0000 || lparam >= 0x8000_0000_0000_0000) {
        Reaction::Answer(0)
    } else if msg == WM_SYSCHAR {
        Reaction::Answer(0)
    } else if msg == WM_DROPFILES {
        Reaction::Dropped
    } else if msg == WM_ADD_TAB {
        Reaction::AddTab
    } else if msg == WM_TRAY {
        if low == WM_LBUTTONUP as u64 {
            Reaction::Post(Ev::Tray(TrayCmd::Open))
        } else if low == WM_RBUTTONUP as u64 {
            Reaction::TrayMenu
        } else {
            Reaction::Answer(0)
        }
    } else if msg == f.taskbar_created && msg != 0 {
        Reaction::TrayAdd
    } else if msg == WM_TIMER {
        Reaction::Timer(wparam)
    } else if msg == WM_LOADED {
        Reaction::Post(Ev::Loaded)
    } else {
        Reaction::Default
    }
}

/// The number a message is answered with, where we answer it.
pub open spec fn answered(r: Reaction, ours: bool) -> Option<i64> {
    match r {
        Reaction::Default => None,
        Reaction::HitTest => None,
        Reaction::Answer(n) => Some(n),
        Reaction::Cursor => Some(1i64),
        Reaction::HandedOver => if ours {
            Some(1i64)
        } else {
            Some(0i64)
        },
        Reaction::Button { side, .. } => if side {
            Some(1i64)
        } else {
            Some(0i64)
        },
        Reaction::Key { system, .. } => if system {
            None
        } else {
            Some(0i64)
        },
        _ => Some(0i64),
    }
}

/// The number a message is answered with. None where the system answers it: the messages that are
/// not ours, keys with Alt, and those asking where a point is. `ours`: what was handed over came from
/// another launch.
pub fn answer(r: Reaction, ours: bool) -> (n: Option<i64>)
    ensures
        n == answered(r, ours),
        n == (match r {
            Reaction::Default => None,
            Reaction::HitTest => None,
            Reaction::Answer(n) => Some(n),
            Reaction::Cursor => Some(1i64),
            Reaction::HandedOver => if ours {
                Some(1i64)
            } else {
                Some(0i64)
            },
            Reaction::Button { side, .. } => if side {
                Some(1i64)
            } else {
                Some(0i64)
            },
            Reaction::Key { system, .. } => if system {
                None
            } else {
                Some(0i64)
            },
            _ => Some(0i64),
        }),
{
    match r {
        Reaction::Default => None,
        Reaction::HitTest => None,
        Reaction::Answer(n) => Some(n),
        Reaction::Cursor => Some(1),
        Reaction::HandedOver => if ours {
            Some(1)
        } else {
            Some(0)
        },
        Reaction::Button { side, .. } => if side {
            Some(1)
        } else {
            Some(0)
        },
        Reaction::Key { system, .. } => if system {
            None
        } else {
            Some(0)
        },
        _ => Some(0),
    }
}

/// The file that another launch handed over: whether the message is one, and how many units of its
/// data are the path. Without any it was launched with no file.
pub fn handed_over(mark: u64, bytes: u32) -> (r: Option<u32>)
    ensures
        r is Some <==> mark == COPYDATA_OPEN,
        r is Some <==> mark == 0x5345_4549,
        r matches Some(n) ==> n == bytes / 2,
{
    if mark == COPYDATA_OPEN {
        Some(bytes / 2)
    } else {
        None
    }
}

/// How close to an edge the pointer takes hold of it.
pub open spec fn band(dpi: u32) -> int {
    if dpi * 6 / 96 > 4 {
        dpi * 6 / 96
    } else {
        4
    }
}

/// Where a client point is.
pub open spec fn hit(
    cap: int,
    buttons: int,
    x: int,
    y: int,
    right: int,
    bottom: int,
    maximized: bool,
    dpi: u32,
) -> u32 {
    let n = band(dpi);
    let (l, rt, t, b) = (x < n, x >= right - n, y < n, y >= bottom - n);
    if cap == 0 {
        HTCLIENT
    } else if !maximized && (l || rt || t || b) {
        if t {
            if l {
                HTTOPLEFT
            } else if rt {
                HTTOPRIGHT
            } else {
                HTTOP
            }
        } else if b {
            if l {
                HTBOTTOMLEFT
            } else if rt {
                HTBOTTOMRIGHT
            } else {
                HTBOTTOM
            }
        } else if l {
            HTLEFT
        } else {
            HTRIGHT
        }
    } else if y < cap && x < right - buttons {
        HTCAPTION
    } else {
        HTCLIENT
    }
}

/// Where a client point is: an edge to resize by, the caption, or the client area. The edges are
/// inside the client area, a few pixels wide: there is no frame left to hold them. `cap` and
/// `buttons` are the caption's height and the width of the buttons at its right; without a caption
/// (fullscreen) there are no edges either.
pub fn hit_test(
    cap: i32,
    buttons: i32,
    x: i32,
    y: i32,
    right: i32,
    bottom: i32,
    maximized: bool,
    dpi: u32,
) -> (r: u32)
    requires
        dpi <= 0xffff,
        0 <= right,
        0 <= bottom,
        0 <= buttons,
    ensures
        r == hit(
            cap as int,
            buttons as int,
            x as int,
            y as int,
            right as int,
            bottom as int,
            maximized,
            dpi,
        ),
        ({
            let n = band(dpi);
            let free = cap != 0 && !maximized;
            let l = x < n;
            let rt = x >= right - n;
            let t = y < n;
            let b = y >= bottom - n;
            &&& cap == 0 ==> r == HTCLIENT
            &&& free && l && t ==> r == HTTOPLEFT
            &&& free && !l && rt && t ==> r == HTTOPRIGHT
            &&& free && l && !t && b ==> r == HTBOTTOMLEFT
            &&& free && !l && rt && !t && b ==> r == HTBOTTOMRIGHT
            &&& free && l && !t && !b ==> r == HTLEFT
            &&& free && !l && rt && !t && !b ==> r == HTRIGHT
            &&& free && !l && !rt && t ==> r == HTTOP
            &&& free && !l && !rt && !t && b ==> r == HTBOTTOM
            &&& cap != 0 && (maximized || (!l && !rt && !t && !b)) ==> r == (if y < cap && x < right
                - buttons {
                HTCAPTION
            } else {
                HTCLIENT
            })
        }),
{
    if cap == 0 {
        return HTCLIENT;
    }
    if !maximized {
        let k: i32 = 6 * dpi as i32 / 96;
        let n: i32 = if k > 4 {
            k
        } else {
            4
        };
        let l: bool = x < n;
        let rt: bool = x >= right - n;
        let t: bool = y < n;
        let b: bool = y >= bottom - n;
        if l && t {
            return HTTOPLEFT;
        }
        if rt && t {
            return HTTOPRIGHT;
        }
        if l && b {
            return HTBOTTOMLEFT;
        }
        if rt && b {
            return HTBOTTOMRIGHT;
        }
        if l {
            return HTLEFT;
        }
        if rt {
            return HTRIGHT;
        }
        if t {
            return HTTOP;
        }
        if b {
            return HTBOTTOM;
        }
    }
    if y < cap && x < right - buttons {
        HTCAPTION
    } else {
        HTCLIENT
    }
}

/// A maximised window's client area: the system places the window past the screen by its (now
/// invisible) frame, and that much is taken back.
pub fn without_frame(r: Rect, f: i32, g: i32) -> (s: Rect)
    requires
        i32::MIN <= r.left + f <= i32::MAX,
        i32::MIN <= r.right - f <= i32::MAX,
        i32::MIN <= r.top + g <= i32::MAX,
        i32::MIN <= r.bottom - g <= i32::MAX,
    ensures
        s.left == r.left + f,
        s.right == r.right - f,
        s.top == r.top + g,
        s.bottom == r.bottom - g,
{
    Rect { left: r.left + f, top: r.top + g, right: r.right - f, bottom: r.bottom - g }
}

/// The dpi of a window: at least the standard one.
pub fn dpi(raw: u32) -> (r: u32)
    ensures
        r == (if raw > 96 {
            raw
        } else {
            96
        }),
{
    if raw > 96 {
        raw
    } else {
        96
    }
}

/// How small the window may be made.
pub fn min_size(raw: u32) -> (r: (i32, i32))
    requires
        raw <= 0xffff,
    ensures
        raw <= 96 ==> r == (420i32, 300i32),
        raw > 96 ==> r.0 == 420 * raw / 96 && r.1 == 300 * raw / 96,
{
    let k: i32 = dpi(raw) as i32;
    (420 * k / 96, 300 * k / 96)
}

/// A half, rounded towards zero.
pub open spec fn half_down(n: int) -> int {
    if n >= 0 {
        n / 2
    } else {
        -((-n) / 2)
    }
}

fn half_i64(n: i64) -> (r: i64)
    requires
        -0x2_0000_0000 <= n <= 0x2_0000_0000,
    ensures
        r == half_down(n as int),
{
    if n >= 0 {
        n / 2
    } else {
        -((-n) / 2)
    }
}

pub open spec fn within(v: int, lo: int, hi: int) -> int {
    if v < lo {
        lo
    } else if v > hi {
        hi
    } else {
        v
    }
}

/// Where a stretch of a length goes on a line: around a centre, given twice over, kept between two ends.
pub open spec fn fitted(twice: int, lo: int, hi: int, len: int) -> int {
    within(half_down(twice) - len / 2, lo, hi - len)
}

/// Where a window that shows `w` by `h` goes: around the centre it has, kept inside the work area
/// of its monitor, and no larger than that.
pub fn fit_to(win: Rect, work: Rect, w: i32, h: i32) -> (r: (i32, i32, i32, i32))
    requires
        0 <= work.right - work.left <= i32::MAX,
        0 <= work.bottom - work.top <= i32::MAX,
        0 <= w,
        0 <= h,
    ensures
        r.2 == (if w < work.width() {
            w as int
        } else {
            work.width()
        }),
        r.3 == (if h < work.height() {
            h as int
        } else {
            work.height()
        }),
        r.0 == within(
            half_down(win.left + win.right) - r.2 / 2,
            work.left as int,
            work.right - r.2,
        ),
        r.1 == within(
            half_down(win.top + win.bottom) - r.3 / 2,
            work.top as int,
            work.bottom - r.3,
        ),
        r.0 == fitted(win.left + win.right, work.left as int, work.right as int, r.2 as int),
        r.1 == fitted(win.top + win.bottom, work.top as int, work.bottom as int, r.3 as int),
        // The whole window is in the work area.
        work.left <= r.0 && r.0 + r.2 <= work.right,
        work.top <= r.1 && r.1 + r.3 <= work.bottom,
{
    let ww: i32 = work.right - work.left;
    let wh: i32 = work.bottom - work.top;
    let w: i32 = if w < ww {
        w
    } else {
        ww
    };
    let h: i32 = if h < wh {
        h
    } else {
        wh
    };
    let x: i64 = half_i64(win.left as i64 + win.right as i64) - (w / 2) as i64;
    let y: i64 = half_i64(win.top as i64 + win.bottom as i64) - (h / 2) as i64;
    let x: i32 = if x < work.left as i64 {
        work.left
    } else if x > (work.right - w) as i64 {
        work.right - w
    } else {
        x as i32
    };
    let y: i32 = if y < work.top as i64 {
        work.top
    } else if y > (work.bottom - h) as i64 {
        work.bottom - h
    } else {
        y as i32
    };
    (x, y, w, h)
}

/// Where a window is made: three quarters of the work area, centred. Also where a maximised window
/// restores to.
pub fn create(work: Rect) -> (r: (i32, i32, i32, i32))
    requires
        0 <= work.right - work.left,
        0 <= work.bottom - work.top,
        (work.right - work.left) * 3 <= i32::MAX,
        (work.bottom - work.top) * 3 <= i32::MAX,
    ensures
        r.2 == work.width() * 3 / 4,
        r.3 == work.height() * 3 / 4,
        r.0 == work.left + (work.width() - r.2) / 2,
        r.1 == work.top + (work.height() - r.3) / 2,
{
    let ww: i32 = work.right - work.left;
    let wh: i32 = work.bottom - work.top;
    let w: i32 = ww * 3 / 4;
    let h: i32 = wh * 3 / 4;
    (work.left + (ww - w) / 2, work.top + (wh - h) / 2, w, h)
}

/// The window's place: where it was closed, else the settings' mode and no rectangle.
pub fn first_place(placement: Option<Placement>, maximized: bool) -> (r: Placement)
    ensures
        r == (match placement {
            Some(p) => p,
            None => Placement {
                rect: Rect { left: 0, top: 0, right: 0, bottom: 0 },
                max: maximized,
            },
        }),
{
    match placement {
        Some(p) => p,
        None => Placement {
            rect: Rect { left: 0, top: 0, right: 0, bottom: 0 },
            max: maximized,
        },
    }
}

pub const SW_HIDE: u32 = 0;

pub const SW_SHOWNORMAL: u32 = 1;

pub const SW_SHOWMAXIMIZED: u32 = 3;

pub const SW_SHOW: u32 = 5;

pub const SW_SHOWNA: u32 = 8;

pub const WPF_RESTORETOMAXIMIZED: u32 = 2;

/// The window is maximised, or would be when shown.
pub open spec fn is_max(show: u32, flags: u32) -> bool {
    show == SW_SHOWMAXIMIZED || (show == SW_HIDE && flags / 2 % 2 == 1)
}

/// How a placed window is shown, and its flags: hidden but maximised, it comes back maximised when
/// shown later.
pub open spec fn placed(maximized: bool, show: bool) -> (u32, u32) {
    (
        if !show {
            SW_HIDE
        } else if maximized {
            SW_SHOWMAXIMIZED
        } else {
            SW_SHOWNORMAL
        },
        if maximized {
            WPF_RESTORETOMAXIMIZED
        } else {
            0
        },
    )
}

/// A rectangle to put a window back to: large enough, and on a monitor that is still there.
pub open spec fn placeable(rect: Rect, on_monitor: bool) -> bool {
    rect.right.wrapping_sub(rect.left) >= 200 && rect.bottom.wrapping_sub(rect.top) >= 150
        && on_monitor
}

/// Whether the window is maximised: from how it is shown and its flags.
pub fn placement(show: u32, flags: u32) -> (max: bool)
    ensures
        max == is_max(show, flags),
{
    show == SW_SHOWMAXIMIZED || (show == SW_HIDE && flags / 2 % 2 == 1)
}

/// Put the window back where it was closed, on that monitor, if it is still there: how it is shown
/// and its flags. A rectangle on a monitor since unplugged would open the window off every screen;
/// then it stays where the system put it.
pub fn set_placement(rect: Rect, maximized: bool, show: bool, on_monitor: bool) -> (r: Option<
    (u32, u32),
>)
    ensures
        r == (if placeable(rect, on_monitor) {
            Some(placed(maximized, show))
        } else {
            None
        }),
{
    if rect.right.wrapping_sub(rect.left) < 200 || rect.bottom.wrapping_sub(rect.top) < 150
        || !on_monitor {
        return None;
    }
    let cmd: u32 = if !show {
        SW_HIDE
    } else if maximized {
        SW_SHOWMAXIMIZED
    } else {
        SW_SHOWNORMAL
    };
    let flags: u32 = if maximized {
        WPF_RESTORETOMAXIMIZED
    } else {
        0
    };
    Some((cmd, flags))
}

/// A window put back, shown or not, says the same of being maximised as it was put back with.
pub proof fn law_maximized_returns(maximized: bool, show: bool)
    ensures
        is_max(placed(maximized, show).0, placed(maximized, show).1) == maximized,
{
}

/// How a hidden window is shown: maximised if it was, else at its own rectangle.
pub fn show(maximized: bool) -> (r: u32)
    ensures
        r == (if maximized {
            SW_SHOWMAXIMIZED
        } else {
            SW_SHOW
        }),
{
    if maximized {
        SW_SHOWMAXIMIZED
    } else {
        SW_SHOW
    }
}

/// How a window is put out of sight while being kept shown, once it is cloaked: a hidden one is
/// shown, without taking the keyboard; one in front is hidden, so that activation goes on to the
/// next window, and shown again unactivated.
pub fn park(visible: bool, in_front: bool, maximized: bool) -> (r: Vec<u32>)
    ensures
        r@ == (if visible {
            Seq::<u32>::empty()
        } else {
            seq![if maximized { SW_SHOWMAXIMIZED } else { SW_SHOWNA }]
        }) + (if in_front {
            seq![SW_HIDE, SW_SHOWNA]
        } else {
            Seq::<u32>::empty()
        }),
{
    let mut v: Vec<u32> = Vec::new();
    if !visible {
        v.push(
            if maximized {
                SW_SHOWMAXIMIZED
            } else {
                SW_SHOWNA
            },
        );
    }
    if in_front {
        v.push(SW_HIDE);
        v.push(SW_SHOWNA);
    }
    assert(v@ =~= (if visible {
        Seq::<u32>::empty()
    } else {
        seq![if maximized { SW_SHOWMAXIMIZED } else { SW_SHOWNA }]
    }) + (if in_front {
        seq![SW_HIDE, SW_SHOWNA]
    } else {
        Seq::<u32>::empty()
    }));
    v
}

/// The size of a client area.
pub fn client_size(r: Rect) -> (s: (u32, u32))
    requires
        r.right - r.left <= i32::MAX,
        r.bottom - r.top <= i32::MAX,
    ensures
        s.0 == within(r.width(), 0, i32::MAX as int),
        s.1 == within(r.height(), 0, i32::MAX as int),
{
    let w: i64 = r.right as i64 - r.left as i64;
    let h: i64 = r.bottom as i64 - r.top as i64;
    (
        if w > 0 {
            w as u32
        } else {
            0
        },
        if h > 0 {
            h as u32
        } else {
            0
        },
    )
}

/// The size of a monitor: never less than the smallest screen there is.
pub fn monitor_size(r: Rect) -> (s: (u32, u32))
    requires
        r.right - r.left <= i32::MAX,
        r.bottom - r.top <= i32::MAX,
    ensures
        s.0 == within(r.width(), 640, i32::MAX as int),
        s.1 == within(r.height(), 480, i32::MAX as int),
{
    let w: i64 = r.right as i64 - r.left as i64;
    let h: i64 = r.bottom as i64 - r.top as i64;
    (
        if w > 640 {
            w as u32
        } else {
            640
        },
        if h > 480 {
            h as u32
        } else {
            480
        },
    )
}

pub const WS_OVERLAPPEDWINDOW: u32 = 0x00cf_0000;

pub const WS_POPUP: u32 = 0x8000_0000;

/// Borderless fullscreen over the window's monitor, and back to where it was.
pub struct Fullscreen {
    pub on: bool,
}

impl Fullscreen {
    pub fn new() -> (r: Fullscreen)
        ensures
            !r.on,
    {
        Fullscreen { on: false }
    }

    /// Whether anything is to be done.
    pub fn set(&mut self, on: bool) -> (changed: bool)
        ensures
            changed == (on != old(self).on),
            final(self).on == on,
    {
        if on == self.on {
            return false;
        }
        self.on = on;
        true
    }
}

/// The window's style in fullscreen and out of it: the overlapped frame taken off or put back.
pub open spec fn styled(style: u32, full: bool) -> u32 {
    if full {
        (style & !WS_OVERLAPPEDWINDOW) | WS_POPUP
    } else {
        (style & !WS_POPUP) | WS_OVERLAPPEDWINDOW
    }
}

pub fn style(old_style: u32, full: bool) -> (r: u32)
    ensures
        r == styled(old_style, full),
{
    if full {
        (old_style & !WS_OVERLAPPEDWINDOW) | WS_POPUP
    } else {
        (old_style & !WS_POPUP) | WS_OVERLAPPEDWINDOW
    }
}

/// Leaving fullscreen gives an ordinary window the style back that it had.
pub proof fn law_style_returns(s: u32)
    requires
        s & WS_OVERLAPPEDWINDOW == WS_OVERLAPPEDWINDOW,
        s & WS_POPUP == 0,
    ensures
        styled(styled(s, true), false) == s,
{
    assert(((((s & !0x00cf_0000u32) | 0x8000_0000u32) & !0x8000_0000u32) | 0x00cf_0000u32) == s)
        by (bit_vector)
        requires
            s & 0x00cf_0000u32 == 0x00cf_0000u32,
            s & 0x8000_0000u32 == 0,
    ;
}

/// A window's opacity in percent: whether it is to be layered or no longer, and its alpha. Layered
/// only while below 100: an opaque window stays an ordinary one, and its present path is untouched.
pub fn set_opacity(percent: u32, layered: bool) -> (r: (Option<bool>, Option<u8>))
    requires
        percent <= 100,
    ensures
        percent == 100 ==> r.1 is None && r.0 == (if layered {
            Some(false)
        } else {
            None
        }),
        percent < 100 ==> r.0 == (if layered {
            None
        } else {
            Some(true)
        }) && r.1 is Some && 2 * percent * 255 - 100 < 200 * r.1->0 <= 2 * percent * 255 + 100,
{
    if percent == 100 {
        (
            if layered {
                Some(false)
            } else {
                None
            },
            None,
        )
    } else {
        (
            if layered {
                None
            } else {
                Some(true)
            },
            Some(((percent * 255 + 50) / 100) as u8),
        )
    }
}

/// The tray icon's menu: a number and a text each, no text for a line between.
pub const TRAY_MENU: [(u32, &'static str); 6] = [
    (1, "Open from clipboard"),
    (2, "Open file…"),
    (0, ""),
    (3, "Settings"),
    (0, ""),
    (4, "Exit Glint"),
];

/// What the tray icon says of itself.
pub const TRAY_TIP: &'static str = "Glint — click to open the clipboard";

/// The command of a number of the menu.
pub fn tray_menu(id: i32) -> (r: Option<TrayCmd>)
    ensures
        id == 1 ==> r == Some(TrayCmd::Open),
        id == 2 ==> r == Some(TrayCmd::OpenFile),
        id == 3 ==> r == Some(TrayCmd::Settings),
        id == 4 ==> r == Some(TrayCmd::Exit),
        !(1 <= id <= 4) ==> r is None,
{
    if id == 1 {
        Some(TrayCmd::Open)
    } else if id == 2 {
        Some(TrayCmd::OpenFile)
    } else if id == 3 {
        Some(TrayCmd::Settings)
    } else if id == 4 {
        Some(TrayCmd::Exit)
    } else {
        None
    }
}

/// What is done next while the queue is drained.
#[derive(Clone, Copy, PartialEq, Eq, Structural, Debug)]
pub enum Next {
    Event(Ev),
    /// After every batch of events: draw if anything changed.
    Frame,
    /// Nothing is left.
    Done,
}

/// Events waiting for the viewer.
pub struct Events {
    pub queue: Vec<Ev>,
    /// The viewer is running: what comes now waits.
    pub busy: bool,
    /// There is a viewer to hand events to.
    pub attached: bool,
    /// The last thing done was a frame.
    pub drawn: bool,
}

/// The events that are no sizes, in their order.
pub open spec fn no_sizes(q: Seq<Ev>) -> Seq<Ev>
    decreases q.len(),
{
    if q.len() == 0 {
        seq![]
    } else if q.last() is Resize {
        no_sizes(q.drop_last())
    } else {
        no_sizes(q.drop_last()).push(q.last())
    }
}

/// The queue after an event came: only the last size counts, each one rebuilds the swapchain.
pub open spec fn queued(q: Seq<Ev>, e: Ev) -> Seq<Ev> {
    if e is Resize {
        no_sizes(q).push(e)
    } else {
        q.push(e)
    }
}

proof fn lemma_no_sizes(q: Seq<Ev>)
    ensures
        forall|i: int| 0 <= i < no_sizes(q).len() ==> !(#[trigger] no_sizes(q)[i] is Resize),
    decreases q.len(),
{
    if q.len() > 0 {
        lemma_no_sizes(q.drop_last());
    }
}

impl Events {
    /// At most one size waits.
    pub open spec fn wf(self) -> bool {
        forall|i: int, j: int|
            0 <= i < j < self.queue@.len() ==> !(#[trigger] self.queue@[i] is Resize
                && #[trigger] self.queue@[j] is Resize)
    }

    pub fn new() -> (r: Events)
        ensures
            r.wf(),
            r.queue@ == Seq::<Ev>::empty(),
            !r.busy,
            !r.attached,
            !r.drawn,
    {
        Events { queue: Vec::new(), busy: false, attached: false, drawn: false }
    }

    pub fn post(&mut self, e: Ev)
        requires
            old(self).wf(),
        ensures
            final(self).wf(),
            final(self).queue@ == queued(old(self).queue@, e),
            final(self).busy == old(self).busy,
            final(self).attached == old(self).attached,
            final(self).drawn == old(self).drawn,
    {
        let size: bool = match e {
            Ev::Resize(_, _) => true,
            _ => false,
        };
        if size {
            let mut q: Vec<Ev> = Vec::new();
            let n: usize = self.queue.len();
            for i in 0..n
                invariant
                    n == self.queue@.len(),
                    *self == *old(self),
                    q@ == no_sizes(self.queue@.take(i as int)),
            {
                assert(self.queue@.take(i + 1).drop_last() =~= self.queue@.take(i as int));
                let o: Ev = self.queue[i];
                match o {
                    Ev::Resize(_, _) => {},
                    _ => q.push(o),
                }
            }
            assert(self.queue@.take(n as int) =~= self.queue@);
            proof {
                lemma_no_sizes(self.queue@);
            }
            q.push(e);
            self.queue = q;
        } else {
            self.queue.push(e);
        }
    }

    /// Start to drain the queue, where that is not going on already.
    pub fn drain(&mut self) -> (go: bool)
        ensures
            go == (!old(self).busy && old(self).attached),
            final(self).busy == (old(self).busy || go),
            go ==> !final(self).drawn,
            !go ==> final(self).drawn == old(self).drawn,
            final(self).queue == old(self).queue,
            final(self).attached == old(self).attached,
    {
        if self.busy || !self.attached {
            return false;
        }
        self.busy = true;
        self.drawn = false;
        true
    }

    /// The next thing to do: the events in their order, a frame after each batch, and done when a
    /// frame left nothing behind.
    pub fn next(&mut self) -> (r: Next)
        requires
            old(self).wf(),
            old(self).busy,
        ensures
            final(self).wf(),
            old(self).queue@.len() > 0 ==> r == Next::Event(old(self).queue@[0])
                && final(self).queue@ == old(self).queue@.skip(1) && final(self).busy
                && !final(self).drawn,
            old(self).queue@.len() == 0 && !old(self).drawn ==> r == Next::Frame
                && final(self).queue@ == old(self).queue@ && final(self).busy && final(self).drawn,
            old(self).queue@.len() == 0 && old(self).drawn ==> r == Next::Done
                && final(self).queue@ == old(self).queue@ && !final(self).busy,
            final(self).attached == old(self).attached,
    {
        if self.queue.len() > 0 {
            let e: Ev = self.queue.remove(0);
            self.drawn = false;
            assert(self.queue@ =~= old(self).queue@.skip(1));
            assert forall|i: int, j: int| 0 <= i < j < self.queue@.len() implies !(
            #[trigger] self.queue@[i] is Resize && #[trigger] self.queue@[j] is Resize) by {
                assert(self.queue@[i] == old(self).queue@[i + 1]);
                assert(self.queue@[j] == old(self).queue@[j + 1]);
            }
            Next::Event(e)
        } else if !self.drawn {
            self.drawn = true;
            Next::Frame
        } else {
            self.busy = false;
            Next::Done
        }
    }
}

/// The size that waits after one came is that one, and nothing else is lost or moved.
pub proof fn law_last_size_counts(q: Seq<Ev>, w: u32, h: u32)
    ensures
        queued(q, Ev::Resize(w, h)).last() == Ev::Resize(w, h),
        no_sizes(queued(q, Ev::Resize(w, h))) == no_sizes(q),
{
    let e = Ev::Resize(w, h);
    let n = queued(q, e);
    assert(n.drop_last() =~= no_sizes(q));
    lemma_no_sizes_again(q);
}

proof fn lemma_no_sizes_again(q: Seq<Ev>)
    ensures
        no_sizes(no_sizes(q)) == no_sizes(q),
    decreases q.len(),
{
    if q.len() > 0 {
        lemma_no_sizes_again(q.drop_last());
        if !(q.last() is Resize) {
            assert(no_sizes(q).drop_last() =~= no_sizes(q.drop_last()));
        }
    }
}

/// A number of 16 bits as it is sent, sign and all.
pub open spec fn sent16(n: int) -> int {
    if n < 0 {
        n + 0x1_0000
    } else {
        n
    }
}

/// A point as a message carries it, x below and y above it; anything may stand above both.
pub open spec fn packs(l: u64, x: int, y: int) -> bool {
    &&& -0x8000 <= x < 0x8000
    &&& -0x8000 <= y < 0x8000
    &&& exists|above: int|
        0 <= above && l == #[trigger] (above * 0x1_0000_0000) + sent16(y) * 0x1_0000 + sent16(x)
}

/// What was packed into a message's argument is read back, also left of the window and above it.
pub proof fn law_point_unpacks(l: u64, x: int, y: int)
    requires
        packs(l, x, y),
    ensures
        signed16(low16(l)) == x,
        signed16(high16(l)) == y,
        low16(l) == sent16(x),
        high16(l) == sent16(y),
{
    let above = choose|above: int|
        0 <= above && l == #[trigger] (above * 0x1_0000_0000) + sent16(y) * 0x1_0000 + sent16(x);
    let a = l as int;
    assert(a == 0x1_0000 * (above * 0x1_0000 + sent16(y)) + sent16(x));
    assert(a / 0x1_0000 == above * 0x1_0000 + sent16(y));
    assert(a % 0x1_0000 == sent16(x));
    assert((above * 0x1_0000 + sent16(y)) % 0x1_0000 == sent16(y));
}

/// A mouse message says where the pointer is, and which button went down or up: the left one, the right
/// one, the middle one, and the two on the side, told apart by the upper half of the other argument.
pub proof fn law_mouse_messages(wparam: u64, l: u64, x: int, y: int, f: Facts)
    requires
        packs(l, x, y),
    ensures
        reaction(0x0200, wparam, l, f) == (Reaction::Move {
            x: x as i32,
            y: y as i32,
            track: !f.tracking,
        }),
        reaction(0x0203, wparam, l, f) == Reaction::Post(Ev::DoubleClick(x as i32, y as i32)),
        ({
            let at = |b: Btn, down: bool, side: bool|
                Reaction::Button { b, down, x: x as i32, y: y as i32, side };
            let back = high16(wparam) == 1;
            &&& reaction(0x0201, wparam, l, f) == at(Btn::Left, true, false)
            &&& reaction(0x0202, wparam, l, f) == at(Btn::Left, false, false)
            &&& reaction(0x0204, wparam, l, f) == at(Btn::Right, true, false)
            &&& reaction(0x0205, wparam, l, f) == at(Btn::Right, false, false)
            &&& reaction(0x0207, wparam, l, f) == at(Btn::Middle, true, false)
            &&& reaction(0x0208, wparam, l, f) == at(Btn::Middle, false, false)
            &&& back ==> reaction(0x020b, wparam, l, f) == at(Btn::Back, true, true)
            &&& back ==> reaction(0x020c, wparam, l, f) == at(Btn::Back, false, true)
            &&& !back ==> reaction(0x020b, wparam, l, f) == at(Btn::Forward, true, true)
            &&& !back ==> reaction(0x020c, wparam, l, f) == at(Btn::Forward, false, true)
        }),
{
    law_point_unpacks(l, x, y);
}

/// The wheel's travel is in the upper half of the first argument, with its sign; the keys held, in the
/// lower half, do not change it.
pub proof fn law_wheel_message(wparam: u64, l: u64, keys: int, delta: int, x: int, y: int, f: Facts)
    requires
        packs(wparam, keys, delta),
        packs(l, x, y),
    ensures
        reaction(0x020a, wparam, l, f) == (Reaction::Wheel {
            delta: delta as i32,
            x: x as i32,
            y: y as i32,
        }),
{
    law_point_unpacks(wparam, keys, delta);
    law_point_unpacks(l, x, y);
}

/// A key message names the key; it repeats where it goes down and was down before. With Alt the system
/// has a say too.
pub proof fn law_key_messages(wparam: u64, lparam: u64, f: Facts)
    requires
        wparam < 0x1_0000,
    ensures
        ({
            let held = lparam / 0x4000_0000 % 2 == 1;
            let key = |down: bool, repeat: bool, system: bool|
                Reaction::Key { vk: wparam as u16, down, repeat, system };
            &&& reaction(0x0100, wparam, lparam, f) == key(true, held, false)
            &&& reaction(0x0104, wparam, lparam, f) == key(true, held, true)
            &&& reaction(0x0101, wparam, lparam, f) == key(false, false, false)
            &&& reaction(0x0105, wparam, lparam, f) == key(false, false, true)
        }),
{
}

/// A new size is passed on as it is; a minimised window, and one without any extent, says nothing.
pub proof fn law_size_message(wparam: u64, lparam: u64, w: u32, h: u32, f: Facts)
    requires
        w < 0x1_0000,
        h < 0x1_0000,
        lparam == h * 0x1_0000 + w,
    ensures
        wparam != 1 && wparam < 0x1_0000_0000 && w > 0 && h > 0 ==> reaction(5, wparam, lparam, f)
            == Reaction::Post(Ev::Resize(w, h)),
        wparam == 1 || w == 0 || h == 0 ==> reaction(5, wparam, lparam, f) == Reaction::Answer(0),
{
    let a = lparam as int;
    assert(a == 0x1_0000 * h + w);
    assert(a / 0x1_0000 == h);
    assert(a % 0x1_0000 == w);
}

/// The window's own messages: closing hides or closes, another launch may quit us or hand a file over, the
/// last message leaves the loop; nothing is erased under a frame, and the caption is ours.
pub proof fn law_window_messages(wparam: u64, lparam: u64, f: Facts)
    ensures
        reaction(0x0010, wparam, lparam, f) == Reaction::Post(Ev::Close),
        reaction(0x8002, wparam, lparam, f) == Reaction::Post(Ev::Quit),
        reaction(0x004a, wparam, lparam, f) == Reaction::HandedOver,
        reaction(0x0002, wparam, lparam, f) == Reaction::Leave,
        reaction(0x000f, wparam, lparam, f) == Reaction::Paint,
        reaction(0x0084, wparam, lparam, f) == Reaction::HitTest,
        reaction(0x0024, wparam, lparam, f) == Reaction::MinSize,
        reaction(0x0233, wparam, lparam, f) == Reaction::Dropped,
        reaction(0x02a3, wparam, lparam, f) == Reaction::Left,
        reaction(0x0106, wparam, lparam, f) == Reaction::Answer(0),
        reaction(0x8006, wparam, lparam, f) == Reaction::AddTab,
        wparam < 0x1_0000 ==> reaction(0x02e0, wparam, lparam, f) == Reaction::Dpi(wparam as u32),
        f.ready ==> reaction(0x0014, wparam, lparam, f) == Reaction::Answer(1),
        wparam != 0 ==> reaction(0x0083, wparam, lparam, f) == (Reaction::TakeFrame {
            maximized: f.maximized,
        }),
        lparam % 0x1_0000 == 1 ==> reaction(0x0020, wparam, lparam, f) == Reaction::Cursor,
        lparam % 0x1_0000 == 0x0202 ==> reaction(0x8005, wparam, lparam, f) == Reaction::Post(
            Ev::Tray(TrayCmd::Open),
        ),
        lparam % 0x1_0000 == 0x0205 ==> reaction(0x8005, wparam, lparam, f) == Reaction::TrayMenu,
        f.taskbar_created != 0x0113 ==> reaction(0x0113, wparam, lparam, f) == Reaction::Timer(wparam),
        f.taskbar_created > 0xc000 ==> reaction(f.taskbar_created, wparam, lparam, f)
            == Reaction::TrayAdd,
        // A tap of Alt opens no menu; the system's other commands are its own.
        wparam == 0xf100 && lparam == 0 ==> reaction(0x0112, wparam, lparam, f) == Reaction::Answer(0),
        wparam < 0xf100 && f.taskbar_created != 0x0112 ==> reaction(0x0112, wparam, lparam, f)
            == Reaction::Default,
{
}

/// Whether a message was ours shows in its answer: those that are not go on to the system, and so do keys
/// with Alt. The buttons on the side, our cursor and a file from another launch are answered by one.
pub proof fn law_answers(r: Reaction, ours: bool)
    ensures
        answered(r, ours) is None <==> r is Default || r is HitTest || (r is Key && r->system),
        r is Button ==> answered(r, ours) == Some(if r->side {
            1i64
        } else {
            0i64
        }),
        r is HandedOver ==> answered(r, ours) == Some(if ours {
            1i64
        } else {
            0i64
        }),
        r is Cursor ==> answered(r, ours) == Some(1i64),
        r is Answer ==> answered(r, ours) == Some(r->Answer_0),
        r is Post || r is Leave || r is Paint || r is Move || r is Wheel || r is Timer || r is Dpi
            ==> answered(r, ours) == Some(0i64),
{
}

/// A window is resized by the edge the pointer is at: by the left one exactly in the band along the left,
/// and so on, and by two of them in a corner. A maximised window, and one in fullscreen, by none.
pub proof fn law_edges(
    cap: int,
    buttons: int,
    x: int,
    y: int,
    right: int,
    bottom: int,
    maximized: bool,
    dpi: u32,
)
    requires
        dpi <= 0xffff,
        0 <= buttons,
        2 * band(dpi) <= right,
        2 * band(dpi) <= bottom,
    ensures
        ({
            let r = hit(cap, buttons, x, y, right, bottom, maximized, dpi);
            let n = band(dpi);
            let free = cap != 0 && !maximized;
            &&& n >= 4 && (dpi >= 96 ==> n * 16 <= dpi < (n + 1) * 16)
            &&& r == 10 || r == 13 || r == 16 <==> free && x < n
            &&& r == 11 || r == 14 || r == 17 <==> free && x >= right - n
            &&& r == 12 || r == 13 || r == 14 <==> free && y < n
            &&& r == 15 || r == 16 || r == 17 <==> free && y >= bottom - n
            &&& r == 2 ==> cap != 0 && y < cap && x < right - buttons
            &&& cap != 0 && maximized && y < cap && x < right - buttons ==> r == 2
            &&& cap == 0 || (y >= cap && n <= x < right - n && n <= y < bottom - n) ==> r == 1
        }),
{
}

/// A window is put around the centre it had, but for a pixel, as long as it stays inside the work area
/// there; else it is moved no further than to the edge of it.
pub proof fn law_stays_centred(twice: int, lo: int, hi: int, len: int)
    requires
        0 <= len <= hi - lo,
    ensures
        ({
            let at = fitted(twice, lo, hi, len);
            &&& lo <= at && at + len <= hi
            &&& at == lo || at + len == hi || -2 <= 2 * at + len - twice <= 2
            &&& at == lo && at + len < hi ==> twice - len <= 2 * lo + 2
            &&& at + len == hi && at > lo ==> twice + len >= 2 * hi - 2
        }),
{
}

/// A window is shown as it was left: hidden, maximised or at its own rectangle, and what is hidden comes
/// back maximised where it was.
pub proof fn law_placed(maximized: bool, show: bool)
    ensures
        !show ==> placed(maximized, show).0 == 0,
        show && maximized ==> placed(maximized, show).0 == 3,
        show && !maximized ==> placed(maximized, show).0 == 1,
        placed(maximized, show).1 == 2 <==> maximized,
        placed(maximized, show).1 == 0 <==> !maximized,
{
}

/// A rectangle is not placed where it is too small, or off every monitor.
pub proof fn law_placeable(rect: Rect, on_monitor: bool)
    requires
        i32::MIN <= rect.right - rect.left <= i32::MAX,
        i32::MIN <= rect.bottom - rect.top <= i32::MAX,
    ensures
        placeable(rect, on_monitor) <==> on_monitor && rect.right - rect.left >= 200 && rect.bottom
            - rect.top >= 150,
{
}

/// What is no size waits behind everything that came before it.
pub proof fn law_events_in_order(q: Seq<Ev>, e: Ev, i: int)
    requires
        !(e is Resize),
        0 <= i < q.len(),
    ensures
        queued(q, e).len() == q.len() + 1,
        queued(q, e)[i] == q[i],
        queued(q, e)[q.len() as int] == e,
        no_sizes(queued(q, e)) == no_sizes(q).push(e),
{
    assert(queued(q, e).drop_last() =~= q);
}

/// A tap of Alt or F10 alone is answered, whatever the low four bits of the command; with a key or a point
/// the command is the system's.
pub proof fn law_alt_tap(wparam: u64, lparam: u64, f: Facts)
    requires
        0xf100 <= wparam < 0xf110,
        f.taskbar_created != 0x0112,
    ensures
        lparam < 0x1_0000 || lparam >= 0x8000_0000_0000_0000 ==> reaction(0x0112, wparam, lparam, f)
            == Reaction::Answer(0),
        0x1_0000 <= lparam < 0x8000_0000_0000_0000 ==> reaction(0x0112, wparam, lparam, f)
            == Reaction::Default,
{
}

} // verus!
