use glint::app::{came_to, App, Batch, Came, Refreshed, Upload, SLOT_BAR, SLOT_CAPTION};
use glint::config::Config;
use glint::frame::{size_text, Drawn, Layer, Shade};
use glint::geom::{rect, Placement, Rect};
use glint::input::{Card, Click, Command, Point};
use glint::loader::{File, Msg, FULL, PREVIEW, THUMB};
use glint::nav::{Nav, Target};
use glint::session::{setup_lines, Applied, Closing, Ini, Outcome, Showing};
use glint::ui::{card, toolbar, CardItem, Tool};
use glint::wic::Img;
use glint::win::{Btn, Ev};

fn file(path: u64, name: &str) -> File {
    File { path, name: name.to_string() }
}

fn img(id: u64, kind: u8) -> Img {
    Img {
        w: 4,
        h: 3,
        px: vec![0; 48],
        full_w: 6000,
        full_h: 4000,
        orient: 1,
        full: kind == FULL,
        thumb: kind == THUMB,
        id,
    }
}

/// A viewer of three files with the setup answered.
fn viewer(settings: &str) -> App {
    let cfg = Config::load(Some(&format!("setup_done = true\n{settings}"))).0;
    let mut a = App::new(cfg, Nav::empty(), 1000, 700, 96, true, false, true);
    a.open(Target { file: file(2, "b.jpg"), folder: false, parent: Some(1) });
    a.take_loaded(Msg::Listed { generation: 1, files: vec![file(1, "a.jpg"), file(22, "B.JPG"), file(3, "c.jpg")] });
    a.cur_changed(2_411_725);
    a
}

/// The pixels of the current file come, and are shown.
fn shown(a: &mut App, id: u64, kind: u8) {
    let path = a.cur_path().unwrap();
    a.take_loaded(Msg::Decoded { path, kind, img: Ok(img(id, kind)) });
    a.pixels_came();
    match a.refresh_texture() {
        Refreshed::Upload(u) => {
            assert!(u.show);
            assert_eq!(a.uploaded(u, None), Refreshed::Shown);
        }
        r => panic!("{r:?}"),
    }
}

#[test]
fn browsing() {
    let mut a = viewer("wrap = true\n");
    assert_eq!(a.cur_path(), Some(2));
    assert_eq!(a.title(), "b.jpg — Glint");
    assert!(a.step(1));
    assert_eq!(a.cur_path(), Some(3));
    assert!(a.step(1));
    assert_eq!(a.cur_path(), Some(1));
    assert!(a.step(-1));
    assert_eq!(a.cur_path(), Some(3));
    assert!(a.first() && !a.first());
    assert!(a.last() && !a.last());
    let mut a = viewer("wrap = false\n");
    assert!(a.step(1) && !a.step(1));
    assert!(a.step(-9));
    assert_eq!((a.cur_path(), a.dir), (Some(1), -1));
    assert!(!a.step(0));
}

#[test]
fn what_a_batch_came_to() {
    assert_eq!(came_to(true, true), Batch::Current);
    assert_eq!(came_to(true, false), Batch::Current);
    assert_eq!(came_to(false, true), Batch::Pixels);
    assert_eq!(came_to(false, false), Batch::Nothing);
}

#[test]
fn keys_zoom_at_the_pointer() {
    let mut a = viewer("");
    let up = Ev::Key { vk: 0x26, down: true, repeat: false };
    a.ui.pointer_at(Point { x: 30, y: 40 });
    assert_eq!(a.event(up, false, false, false, true), Command::Zoom { up: true, at: Point { x: 30, y: 40 } });
    // It is followed over the setup card too.
    a.open_setup(false, true, false, false);
    let c = a.event(Ev::MouseMove(50, 60), false, false, false, true);
    assert!(matches!(c, Command::CardHover { at: Point { x: 50, y: 60 }, .. }));
    assert_eq!(a.ui.mouse, Point { x: 50, y: 60 });
}

#[test]
fn pixels_get_better() {
    let mut a = viewer("");
    assert!(!a.cur_ready());
    assert_eq!(a.refresh_texture(), Refreshed::Same);
    shown(&mut a, 1, THUMB);
    assert!(a.cur_ready());
    shown(&mut a, 2, PREVIEW);
    assert_eq!(a.refresh_texture(), Refreshed::Same);
    shown(&mut a, 3, FULL);
    assert_eq!(a.tex.shown.map(|t| t.rank), Some(2));
    // A preview that comes late is of no use.
    let (came, _) = a.take_loaded(Msg::Decoded { path: 2, kind: PREVIEW, img: Ok(img(9, PREVIEW)) });
    assert_eq!(came, Came::Pixels);
    assert_eq!(a.refresh_texture(), Refreshed::Same);
    // Nor is what nobody asked for.
    let (came, back) = a.take_loaded(Msg::Decoded { path: 99, kind: FULL, img: Ok(img(10, FULL)) });
    assert_eq!(came, Came::Nothing);
    assert!(back.is_some());
    let (came, _) = a.take_loaded(Msg::Listed { generation: 0, files: Vec::new() });
    assert_eq!(came, Came::Nothing);
}

#[test]
fn neighbours_go_to_the_gpu() {
    let mut a = viewer("");
    shown(&mut a, 1, PREVIEW);
    assert!(a.prefetch_gpu(0).is_none());
    a.take_loaded(Msg::Decoded { path: 3, kind: PREVIEW, img: Ok(img(5, PREVIEW)) });
    let u: Upload = a.prefetch_gpu(0).unwrap();
    assert!(!u.show && u.mips && u.slot != a.tex.shown_slot);
    assert_eq!(a.uploaded(u, None), Refreshed::Same);
    assert!(a.prefetch_gpu(0).is_none());
    // The flip then is a draw and nothing else.
    assert!(a.step(1));
    a.cur_changed(1);
    assert_eq!(a.refresh_texture(), Refreshed::Shown);
    assert_eq!(a.tex.shown.map(|t| t.path), Some(3));
    assert_eq!(a.uploaded(u, Some("lost".to_string())), Refreshed::Same);
    assert_eq!(a.error.as_deref(), Some("lost"));
}

#[test]
fn a_deleted_file_is_gone() {
    let mut a = viewer("");
    shown(&mut a, 1, PREVIEW);
    let slot = a.tex.shown_slot;
    let (cleared, gone) = a.delete();
    assert_eq!(cleared, Some(slot));
    assert_eq!(gone.and_then(|s| s.preview).map(|i| i.id), Some(1));
    assert_eq!(a.cur_path(), Some(3));
    assert!(a.tex.shown.is_none());
}

#[test]
fn sizes_of_files() {
    assert_eq!(size_text(0), "0 KB");
    assert_eq!(size_text(511), "0 KB");
    assert_eq!(size_text(512), "0 KB");
    assert_eq!(size_text(1536), "2 KB");
    assert_eq!(size_text(2560), "2 KB");
    assert_eq!(size_text(1_048_575), "1024 KB");
    assert_eq!(size_text(1_048_576), "1.0 MB");
    assert_eq!(size_text(2_411_725), "2.3 MB");
    for n in [1u64, 700, 1024, 99_999, 1_048_576, 1_310_720, 5_555_555, 123_456_789, 9_876_543_210, (1 << 53) - 1, (1 << 53) + 1,
        (1 << 53) + 3, (1 << 60) + 65, (1 << 60) + 52_429, (1 << 63) + 1024, u64::MAX - 1024, u64::MAX] {
        let mb = n as f64 / (1024.0 * 1024.0);
        let text = if mb >= 1.0 { format!("{mb:.1} MB") } else { format!("{:.0} KB", n as f64 / 1024.0) };
        assert_eq!(size_text(n), text);
    }
}

#[test]
fn what_the_frame_says() {
    let mut a = viewer("");
    assert_eq!(a.info_line("50%"), "2 / 3    …    2.3 MB");
    shown(&mut a, 1, PREVIEW);
    assert_eq!(a.info_line("50%"), "2 / 3    6000 × 4000    50%    2.3 MB");
    assert_eq!(a.caption_title(), "b.jpg");
    assert_eq!(a.pill("50%"), None);
    a.ui.set_fullscreen(true);
    assert_eq!(
        a.pill("50%"),
        Some(("b.jpg    2 / 3    6000 × 4000    50%    2.3 MB".to_string(), false))
    );
    a.ui.take(Command::Info);
    assert_eq!(a.pill("50%"), None);
    a.error = Some("device lost".to_string());
    assert_eq!(a.pill("50%"), Some(("GPU: device lost".to_string(), true)));

    let empty = App::new(Config::load(None).0, Nav::empty(), 1000, 700, 96, true, false, true);
    assert_eq!(empty.info_line(""), "");
    assert_eq!(empty.caption_title(), "Glint");
    assert_eq!(empty.pill(""), Some(("Drop an image here  ·  O — open a file".to_string(), true)));

    let mut a = viewer("");
    a.take_loaded(Msg::Decoded { path: 2, kind: PREVIEW, img: Err("no codec".to_string()) });
    a.refresh_texture();
    assert_eq!(a.pill(""), Some(("Cannot open b.jpg: no codec".to_string(), true)));
    let mut a = viewer("");
    a.open(Target { file: file(7, "x.png"), folder: false, parent: None });
    assert!(a.info_line("").starts_with("1 / …    …"));
}

#[test]
fn the_caption_is_drawn_when_it_changes() {
    let mut a = viewer("");
    let k = a.render_chrome("50%", false, false).unwrap();
    assert_eq!((k.title.as_str(), k.w), ("b.jpg", 1000));
    assert!(k.info.starts_with("2 / 3"));
    assert!(!a.ui.chrome_dirty);
    a.caption_sent(k, Ok(()));
    a.ui.redraw();
    assert!(a.render_chrome("50%", false, true).is_none());
    a.ui.redraw();
    assert!(a.render_chrome("50%", true, true).is_some());
    a.ui.take(Command::Info);
    let k = a.render_chrome("50%", false, true).unwrap();
    assert_eq!(k.info, "");
    a.caption_sent(k, Err("lost".to_string()));
    assert_eq!(a.error.as_deref(), Some("lost"));
    a.ui.set_fullscreen(true);
    assert!(a.render_chrome("50%", false, true).is_none());
    assert_eq!((SLOT_CAPTION, SLOT_BAR), (4, 7));
}

#[test]
fn panels_are_drawn_when_they_change() {
    let mut a = viewer("");
    assert!(a.say("x".to_string(), true));
    assert!(!a.say("x".to_string(), true));
    assert!(a.say("x".to_string(), false));
    let k = a.bar_due("50%", true).unwrap();
    assert_eq!(k.zoom, "");
    let bar = toolbar(96, None, false, "");
    a.bar_sent(k, bar.items);
    assert!(a.bar_due("50%", true).is_none());
    assert!(a.bar_due("50%", false).is_some());
    shown(&mut a, 1, PREVIEW);
    assert_eq!(a.bar_due("50%", true).unwrap().zoom, "50%");
    assert!(a.card_due(false).is_none());
    a.open_setup(false, false, true, false);
    let c: Card = a.card_due(true).unwrap();
    assert_eq!(
        c.rows(),
        vec![(CardItem::Install, false), (CardItem::Autostart, true), (CardItem::Default, false)]
    );
    let p = card(96, &c.rows(), None, "").0;
    a.card_sent(p.items);
    assert!(a.card_due(true).is_none());
}

#[test]
fn layers_of_a_frame() {
    let mut a = viewer("");
    shown(&mut a, 1, PREVIEW);
    let v = a.quads(Some((false, 101, 30)), Some((476, 48)), Some((460, 300)));
    assert_eq!(v.len(), 6);
    assert!(matches!(v[0], Layer::Photo { slot, .. } if slot == a.tex.shown_slot));
    assert_eq!(v[1], Layer::Caption(rect(0, 0, 1000, 32)));
    assert_eq!(v[2], Layer::Pill(rect(450, 48, 551, 78)));
    assert_eq!(v[3], Layer::Bar(rect(262, 636, 738, 684)));
    assert_eq!(v[4], Layer::Dim(rect(0, 32, 1000, 700)));
    assert_eq!(v[5], Layer::Card(rect(270, 216, 730, 516)));
    assert_eq!(a.bar_at, Point { x: 262, y: 636 });
    assert_eq!(a.card_at, Point { x: 270, y: 216 });
    // A card that is too high stays under the caption.
    let v = a.quads(None, None, Some((460, 900)));
    assert!(matches!(v[3], Layer::Card(Rect { top: 32, .. })));
    a.ui.set_fullscreen(true);
    assert_eq!(a.quads(Some((true, 100, 100)), None, None)[1], Layer::Pill(rect(450, 300, 550, 400)));
    assert_eq!(a.ui.area(), (0, 0, 1000, 700));
    assert_eq!(a.ui.caption_zone(), (0, 0));
    a.ui.set_fullscreen(false);
    assert_eq!(a.ui.area(), (0, 32, 1000, 668));
    assert_eq!(a.ui.caption_zone(), (32, 184));
}

#[test]
fn after_a_frame() {
    let mut a = viewer("");
    assert!(a.frame_due());
    assert_eq!(a.drawn(Ok(false)), Drawn { prefetch: false, ready: false });
    assert!(a.frame_due());
    assert_eq!(a.drawn(Ok(true)), Drawn { prefetch: true, ready: true });
    assert!(!a.frame_due());
    a.ui.redraw();
    assert_eq!(a.drawn(Ok(true)), Drawn { prefetch: false, ready: false });
    a.ui.redraw();
    a.drawn(Err("lost".to_string()));
    assert!(!a.frame_due() && a.error.is_some());
    assert_eq!(a.background(), (Shade::Configured(None), false));
    a.ui.ground = 2;
    assert_eq!(a.background(), (Shade::LightGrey, false));
    a.ui.ground = 3;
    assert!(a.background().1);
}

#[test]
fn events_ask_for_commands() {
    let mut a = viewer("wheel = zoom\n");
    let e = |a: &mut App, e: Ev, ctrl: bool| a.event(e, false, ctrl, false, true);
    let wheel = Ev::Wheel { delta: -120, x: 5, y: 6 };
    assert_eq!(e(&mut a, wheel, false), Command::Wheel { delta: -120, at: Point { x: 5, y: 6 } });
    assert_eq!(e(&mut a, wheel, true), Command::Step { back: false });
    assert_eq!(e(&mut a, Ev::DoubleClick(500, 300), false), Command::Fullscreen(true));
    assert!(a.ui.fullscreen);
    assert_eq!(e(&mut a, Ev::DoubleClick(500, 300), false), Command::Fullscreen(false));
    let press = |down: bool| Ev::Button { b: Btn::Left, down, x: 990, y: 5 };
    e(&mut a, press(true), false);
    assert_eq!(e(&mut a, press(false), false), Command::Release { click: Click::Close });
    // The bar is there to be used.
    let k = a.bar_due("", false).unwrap();
    let bar = toolbar(96, None, false, "");
    let (tool, r) = bar.items[1];
    assert_eq!(tool, Tool::Next);
    a.bar_sent(k, bar.items);
    a.quads(None, Some((476, 48)), None);
    let at = Ev::Button { b: Btn::Left, down: true, x: a.bar_at.x + r.left, y: a.bar_at.y + r.top };
    assert_eq!(e(&mut a, at, false), Command::UseTool(Tool::Next));
    assert_eq!(e(&mut a, Ev::Button { b: Btn::Left, down: true, x: 500, y: 300 }, false), Command::Grab(Point { x: 500, y: 300 }));
}

#[test]
fn shown_and_hidden() {
    let mut a = viewer("window = fullscreen\nresident = true\n");
    assert_eq!(a.show(), Showing::Focus);
    let p = Placement { rect: rect(1, 2, 301, 402), max: true };
    assert_eq!(a.save_placement(p), Some("1,2,301,402,1".to_string()));
    assert!(!a.ui.fullscreen);
    assert_eq!(a.close(), Closing::Hide);
    a.park();
    assert_eq!(a.save_placement(p), None);
    assert!(!a.frame_due());
    let gone = a.let_go();
    assert_eq!(gone.len(), 0);
    assert_eq!(a.cur_path(), None);
    assert!(a.settle());
    assert_eq!(a.show(), Showing::Reveal);
    a.shown();
    assert!(a.ui.fullscreen);
    assert_eq!(viewer("resident = false\n").close(), Closing::Exit);
    let mut a = viewer("");
    a.hidden = true;
    assert_eq!(a.show(), Showing::Show { maximized: false });
}

#[test]
fn the_setup_card_comes_once() {
    let a = App::new(Config::load(None).0, Nav::empty(), 1000, 700, 96, true, false, false);
    assert_eq!(
        a.ui.card,
        Some(Card { install: Some(true), autostart: true, default: true, hot: None, dirty: true })
    );
    let mut a = App::new(Config::load(None).0, Nav::empty(), 1000, 700, 96, true, false, true);
    assert_eq!(a.ui.card.unwrap().install, None);
    a.close_setup();
    assert!(a.ui.card.is_none() && a.cfg.setup_done);
    let a = App::new(a.cfg, Nav::empty(), 1000, 700, 96, true, false, true);
    assert!(a.ui.card.is_none());
}

#[test]
fn applying_the_setup_card() {
    let fine = || Outcome { install: None, autostart: Ok(()), default: Ok(true) };
    let mut a = viewer("resident = false\n");
    a.open_setup(true, true, false, false);
    assert_eq!(a.apply_setup(fine()), (Applied::Closed, true));
    assert!(a.cfg.resident && a.cfg.setup_done && a.ui.card.is_none());

    let mut a = viewer("resident = true\n");
    a.open_setup(true, false, false, false);
    let bad = Outcome {
        install: Some(Err("no room".to_string())),
        autostart: Err("registry Run: error 5".to_string()),
        default: Ok(false),
    };
    assert_eq!(a.apply_setup(bad), (Applied::Noted, false));
    assert_eq!(a.note, "install: no room; registry Run: error 5; Windows asks to confirm in Settings");
    assert!(a.ui.card.unwrap().dirty);

    let mut a = viewer("");
    a.open_setup(false, false, false, false);
    let o = Outcome { install: Some(Ok(())), autostart: Ok(()), default: Ok(false) };
    assert_eq!(a.apply_setup(o), (Applied::Relaunch, false));
    let p = Placement { rect: rect(0, 0, 5, 5), max: false };
    assert_eq!(a.relaunch_place(p), p);
    a.hidden = true;
    assert!(a.relaunch_place(p).max);

    let l = setup_lines(Applied::Relaunch, true, true, p);
    assert_eq!(l.len(), 3);
    assert!(l[0].ini == Ini::Own && l[0].key == "resident" && l[0].value == "true");
    assert!(l[1].ini == Ini::Installed && l[1].key == "placement" && l[1].value == "0,0,5,5,0");
    assert!(l[2].ini == Ini::Installed && l[2].key == "resident");
    let l = setup_lines(Applied::Noted, false, true, p);
    assert!(l.len() == 1 && l[0].ini == Ini::Own && l[0].key == "setup_done");
}
