use glint::geom::rect;
use glint::input;
use glint::input::{key, Command, Ui};
use glint::ui::{
    button_at, buttons_w, caption, caption_h, card, font_px, icon_face, item_at, pill, rgb, scaled, toolbar, Button,
    CardItem, Font, Op, Tool,
};
use glint::win;
use glint::win::{
    answer, client_size, create, dpi, first_place, fit_to, handed_over, hi, hit_test, lo, min_size, monitor_size, park,
    placement, set_opacity, set_placement, show, style, tray_menu, without_frame, wndproc, Btn, Ev, Events, Facts,
    Fullscreen, Next, Reaction, TrayCmd, COPYDATA_OPEN, TRAY_MENU, WM_TRAY,
};
use windows_sys::Win32::UI::Input::KeyboardAndMouse as km;
use windows_sys::Win32::UI::WindowsAndMessaging as wm;

const F: Facts = Facts { ready: true, tracking: false, maximized: false, taskbar_created: 0xc123 };

fn at(x: i16, y: i16) -> u64 {
    (x as u16 as u64) | (y as u16 as u64) << 16
}

#[test]
fn messages_become_events() {
    let p = |msg: u32, w: u64, l: u64| wndproc(msg, w, l, F);
    assert_eq!(p(wm::WM_CLOSE, 0, 0), Reaction::Post(Ev::Close));
    assert_eq!(p(wm::WM_SIZE, 0, at(800, 600)), Reaction::Post(Ev::Resize(800, 600)));
    assert_eq!(p(wm::WM_SIZE, wm::SIZE_MINIMIZED as u64, at(800, 600)), Reaction::Answer(0));
    assert_eq!(p(wm::WM_SIZE, 0, at(0, 600)), Reaction::Answer(0));
    assert_eq!(p(wm::WM_MOUSEMOVE, 0, at(-3, 7)), Reaction::Move { x: -3, y: 7, track: true });
    assert_eq!(p(wm::WM_LBUTTONDBLCLK, 0, at(1, 2)), Reaction::Post(Ev::DoubleClick(1, 2)));
    assert_eq!(
        p(wm::WM_XBUTTONDOWN, 2 << 16, at(1, 2)),
        Reaction::Button { b: Btn::Forward, down: true, x: 1, y: 2, side: true }
    );
    assert_eq!(
        p(wm::WM_MOUSEWHEEL, (-120i16 as u16 as u64) << 16, at(5, 6)),
        Reaction::Wheel { delta: -120, x: 5, y: 6 }
    );
    assert_eq!(
        p(wm::WM_KEYDOWN, 0x25, 0x4000_0000),
        Reaction::Key { vk: 0x25, down: true, repeat: true, system: false }
    );
    assert_eq!(
        p(wm::WM_SYSKEYUP, 0x12, 0x4000_0000),
        Reaction::Key { vk: 0x12, down: false, repeat: false, system: true }
    );
    assert_eq!(p(wm::WM_ERASEBKGND, 0, 0), Reaction::Answer(1));
    assert_eq!(p(0xc123, 0, 0), Reaction::TrayAdd);
    assert_eq!(p(0xc124, 0, 0), Reaction::Default);
    assert_eq!(p(WM_TRAY, 0, wm::WM_LBUTTONUP as u64), Reaction::Post(Ev::Tray(TrayCmd::Open)));
    assert_eq!(p(WM_TRAY, 0, wm::WM_RBUTTONUP as u64), Reaction::TrayMenu);
    assert_eq!(p(wm::WM_TIMER, 9, 0), Reaction::Timer(9));
    assert_eq!(p(wm::WM_NCHITTEST, 0, 0), Reaction::HitTest);
    assert_eq!(p(wm::WM_DROPFILES, 0, 0), Reaction::Dropped);
    assert_eq!(p(wm::WM_DPICHANGED, at(144, 144), 0), Reaction::Dpi(144));
    assert_eq!((lo(at(-5, 9)), hi(at(-5, 9))), (-5, 9));
    assert_eq!(handed_over(COPYDATA_OPEN, 10), Some(5));
    assert_eq!(handed_over(1, 10), None);
}

#[test]
fn numbers_of_windows() {
    assert_eq!(win::WM_DESTROY, wm::WM_DESTROY);
    assert_eq!(win::WM_PAINT, wm::WM_PAINT);
    assert_eq!(win::WM_COPYDATA, wm::WM_COPYDATA);
    assert_eq!(win::WM_SYSCOMMAND, wm::WM_SYSCOMMAND);
    assert_eq!(win::WM_GETMINMAXINFO, wm::WM_GETMINMAXINFO);
    assert_eq!(win::SC_KEYMENU, wm::SC_KEYMENU);
    assert_eq!((win::HTCAPTION, win::HTBOTTOMRIGHT), (wm::HTCAPTION, wm::HTBOTTOMRIGHT));
    assert_eq!(win::SW_SHOWMAXIMIZED, wm::SW_SHOWMAXIMIZED as u32);
    assert_eq!(win::SW_SHOWNA, wm::SW_SHOWNA as u32);
    assert_eq!(win::WPF_RESTORETOMAXIMIZED, wm::WPF_RESTORETOMAXIMIZED);
    assert_eq!(win::WS_OVERLAPPEDWINDOW, wm::WS_OVERLAPPEDWINDOW);
    assert_eq!(win::WS_POPUP, wm::WS_POPUP);
    assert_eq!((input::VK_LEFT, input::VK_NEXT, input::VK_F11), (km::VK_LEFT, km::VK_NEXT, km::VK_F11));
    assert_eq!(
        (input::VK_OEM_PLUS, input::VK_OEM_4, input::VK_OEM_6),
        (km::VK_OEM_PLUS, km::VK_OEM_4, km::VK_OEM_6)
    );
    assert_eq!((input::VK_B, input::VK_T, input::VK_NUMPAD1), (km::VK_B, km::VK_T, km::VK_NUMPAD1));
}

#[test]
fn where_a_point_of_the_window_lies() {
    let t = |x: i32, y: i32| hit_test(32, 184, x, y, 1000, 700, false, 96);
    assert_eq!(t(0, 0), wm::HTTOPLEFT);
    assert_eq!(t(999, 699), wm::HTBOTTOMRIGHT);
    assert_eq!(t(0, 300), wm::HTLEFT);
    assert_eq!(t(500, 20), wm::HTCAPTION);
    assert_eq!(t(900, 20), wm::HTCLIENT);
    assert_eq!(t(500, 300), wm::HTCLIENT);
    assert_eq!(hit_test(32, 184, 0, 0, 1000, 700, true, 96), wm::HTCAPTION);
    assert_eq!(hit_test(0, 0, 0, 0, 1000, 700, false, 96), wm::HTCLIENT);
}

#[test]
fn what_a_message_is_answered_with() {
    let a = |msg: u32, w: u64, l: u64| answer(wndproc(msg, w, l, F), false);
    assert_eq!(a(wm::WM_XBUTTONDOWN, 1 << 16, 0), Some(1));
    assert_eq!(a(wm::WM_XBUTTONUP, 2 << 16, 0), Some(1));
    assert_eq!(a(wm::WM_LBUTTONDOWN, 0, 0), Some(0));
    assert_eq!(a(wm::WM_SETCURSOR, 0, wm::HTCLIENT as u64), Some(1));
    assert_eq!(a(wm::WM_ERASEBKGND, 0, 0), Some(1));
    assert_eq!(a(wm::WM_CLOSE, 0, 0), Some(0));
    assert_eq!(a(wm::WM_KEYDOWN, 0x41, 0), Some(0));
    assert_eq!(a(wm::WM_SYSKEYDOWN, 0x41, 0), None);
    assert_eq!(a(wm::WM_NCHITTEST, 0, 0), None);
    assert_eq!(a(wm::WM_NULL, 0, 0), None);
    assert_eq!(answer(Reaction::HandedOver, true), Some(1));
    assert_eq!(answer(Reaction::HandedOver, false), Some(0));
}

#[test]
fn places_of_the_window() {
    let work = rect(0, 0, 1600, 900);
    assert_eq!(create(work), (200, 112, 1200, 675));
    let most = i32::MAX / 3;
    assert_eq!(create(rect(0, 0, most, most)).2, most * 3 / 4);
    assert_eq!(fit_to(rect(0, 0, 100, 100), work, 400, 300), (0, 0, 400, 300));
    assert_eq!(fit_to(rect(800, 400, 900, 500), work, 400, 300), (650, 300, 400, 300));
    assert_eq!(fit_to(rect(0, 0, 100, 100), work, 4000, 3000), (0, 0, 1600, 900));
    assert!(first_place(None, true).max);
    assert_eq!(set_placement(rect(0, 0, 0, 0), true, true, true), None);
    assert_eq!(set_placement(rect(0, 0, 500, 400), true, true, false), None);
    for max in [true, false] {
        for sh in [true, false] {
            let (s, f) = set_placement(rect(0, 0, 500, 400), max, sh, true).unwrap();
            assert_eq!(placement(s, f), max);
        }
    }
    assert_eq!(show(true), wm::SW_SHOWMAXIMIZED as u32);
    assert_eq!(park(true, false, true), Vec::<u32>::new());
    assert_eq!(park(false, true, false).len(), 3);
    assert_eq!(client_size(rect(0, 0, 640, 480)), (640, 480));
    assert_eq!(client_size(rect(5, 0, 0, 480)), (0, 480));
    assert_eq!(monitor_size(rect(0, 0, 0, 0)), (640, 480));
    assert_eq!(min_size(96), (420, 300));
    assert_eq!(min_size(144), (630, 450));
    assert_eq!(dpi(0), 96);
    assert_eq!(without_frame(rect(-8, -8, 1608, 908), 8, 8), rect(0, 0, 1600, 900));
}

#[test]
fn fullscreen_and_back() {
    let mut f = Fullscreen::new();
    assert!(f.set(true) && !f.set(true) && f.set(false));
    let s = wm::WS_OVERLAPPEDWINDOW | wm::WS_VISIBLE;
    assert_eq!(style(style(s, true), false), s);
    assert_eq!(style(s, true) & wm::WS_POPUP, wm::WS_POPUP);
}

#[test]
fn opacity_of_the_window() {
    assert_eq!(set_opacity(100, true), (Some(false), None));
    assert_eq!(set_opacity(100, false), (None, None));
    let (layer, a) = set_opacity(50, false);
    assert_eq!(layer, Some(true));
    assert!(a == Some(127) || a == Some(128));
    assert_eq!(set_opacity(0, true).1, Some(0));
}

#[test]
fn the_menu_of_the_tray() {
    assert_eq!(tray_menu(TRAY_MENU[0].0 as i32), Some(TrayCmd::Open));
    assert_eq!(tray_menu(TRAY_MENU[5].0 as i32), Some(TrayCmd::Exit));
    assert_eq!(tray_menu(0), None);
}

#[test]
fn only_the_last_size_counts() {
    let mut q = Events::new();
    q.attached = true;
    q.post(Ev::Resize(1, 1));
    q.post(Ev::Paint);
    q.post(Ev::Resize(2, 2));
    assert_eq!(q.queue, vec![Ev::Paint, Ev::Resize(2, 2)]);
    assert!(q.drain());
    assert!(!q.drain());
    assert_eq!(q.next(), Next::Event(Ev::Paint));
    q.post(Ev::Loaded);
    assert_eq!(q.next(), Next::Event(Ev::Resize(2, 2)));
    assert_eq!(q.next(), Next::Event(Ev::Loaded));
    assert_eq!(q.next(), Next::Frame);
    q.post(Ev::Quit);
    assert_eq!(q.next(), Next::Event(Ev::Quit));
    assert_eq!(q.next(), Next::Frame);
    assert_eq!(q.next(), Next::Done);
    assert!(q.drain());
}

#[test]
fn keys() {
    let ui = Ui::new(1000, 700, 96, true);
    assert_eq!(key(&ui, km::VK_RIGHT, true, false), Command::Step { back: false });
    assert_eq!(key(&ui, km::VK_BACK, false, false), Command::Step { back: true });
    assert_eq!(key(&ui, km::VK_R, false, true), Command::Turn { back: true });
    assert_eq!(key(&ui, km::VK_R, true, true), Command::Nothing);
    assert_eq!(key(&ui, km::VK_ESCAPE, false, false), Command::CloseWindow);
    assert_eq!(key(&ui, km::VK_UP, false, false), Command::Zoom { up: true, at: ui.mouse });
    assert_eq!(key(&ui, km::VK_F, false, false), Command::Fullscreen(true));
    assert_eq!(key(&ui, 0xffff, false, false), Command::Nothing);
    let mut full = ui;
    full.set_fullscreen(true);
    assert_eq!(key(&full, km::VK_ESCAPE, false, false), Command::Fullscreen(false));
}

#[test]
fn looks_that_come_round() {
    let start = Ui::new(1000, 700, 96, true);
    let mut ui = start;
    for _ in 0..4 {
        ui.take(Command::Turn { back: false });
    }
    assert_eq!(ui.rot, 0);
    ui.take(Command::Turn { back: true });
    assert_eq!(ui.rot, 3);
    for g in [1, 2, 3, 0] {
        ui.take(Command::Ground);
        assert_eq!(ui.ground, g);
    }
    for _ in 0..20 {
        ui.take(Command::Opacity { up: false });
    }
    assert_eq!(ui.opacity, 10);
    for _ in 0..20 {
        ui.take(Command::Opacity { up: true });
    }
    assert_eq!(ui.opacity, 100);
    ui.take(Command::Info);
    assert!(!ui.info && ui.chrome_dirty);
    ui.take(Command::Topmost);
    assert!(ui.topmost);
}

#[test]
fn buttons_of_the_caption() {
    assert_eq!(caption_h(96), 32);
    assert_eq!(caption_h(144), 48);
    assert_eq!(buttons_w(96), 184);
    assert_eq!(button_at(999, 10, 1000, 96), Some(Button::Close));
    assert_eq!(button_at(816, 10, 1000, 96), Some(Button::Settings));
    assert_eq!(button_at(815, 10, 1000, 96), None);
    assert_eq!(button_at(999, 32, 1000, 96), None);
    assert_eq!(scaled(16, 120), 20);
    assert_eq!(rgb(0x123456), 0x563412);
    assert_eq!(font_px(Font::Caption, 96), 13);
    assert_eq!(icon_face("Segoe Fluent Icons"), "Segoe Fluent Icons");
    assert_eq!(icon_face("Arial"), "Segoe MDL2 Assets");
}

#[test]
fn panels_and_their_parts() {
    let (ops, logo, x, y) = caption(96, 1000, "a.jpg", "1 / 2", 40, Some(Button::Close), false, true);
    assert!(matches!(ops[0], Op::Fill { .. }));
    assert_eq!((logo, x, y), (20, 10, 6));
    let rows = vec![(CardItem::Autostart, true), (CardItem::Default, false)];
    let (p, _, _, _) = card(96, &rows, None, "");
    assert_eq!(p.w, 460);
    assert_eq!(p.items.len(), 4);
    let (item, r) = p.items[2];
    assert_eq!(item, CardItem::Apply);
    assert_eq!(item_at(&p.items, (10, 20), r.left + 10, r.top + 20), Some(CardItem::Apply));
    assert_eq!(item_at(&p.items, (10, 20), 0, 0), None);
    let b = toolbar(96, Some(Tool::Fit), false, "100%");
    assert_eq!((b.w, b.h), (12 + 360 + 52 + 52, 48));
    assert_eq!(b.items.len(), 9);
    assert_eq!(b.items[8].1.right, b.w - 6);
    let p = pill(96, "x", 100, 20);
    assert_eq!((p.w, p.h), (124, 32));
    assert_eq!(pill(96, "x", 9000, 20).w, 8192);
}
