//! The viewer: which file is shown, what to decode next, and what goes to the GPU.
//!
//! What only floating point can say (how far the photo is zoomed, where it is pushed to) is kept by
//! the caller, who is told when it is to change.

use crate::cache::{best_of, kept, wanted, Scheduled, Slot, Store};
use crate::config::{Config, WindowMode};
use crate::geom::Rect;
use crate::input::{
    asked, command, event_fits, hovers, lemma_asked_fits, redrawn, taken, Around, Card, Command,
    Point, Ui, MAX_WINDOW,
};
use crate::loader::{Key, Msg};
use crate::nav::{listing_taken, near, near_of, same_file, stepped, Nav, Opened, Target};
use crate::text::cat2;
use crate::textures::{facts, of_file, Place, Tex, Textures, IMAGE_SLOTS};
use crate::ui::{item_at, part_at, Button, CardItem, Tool};
use crate::wic::Img;
use crate::win::Ev;
use vstd::prelude::*;

verus! {

pub const SLOT_CAPTION: usize = 4;

pub const SLOT_INFO: usize = 5;

pub const SLOT_CARD: usize = 6;

pub const SLOT_BAR: usize = 7;

/// What the caption on the GPU shows: drawn again only when that changes.
pub struct CaptionKey {
    pub title: String,
    pub info: String,
    pub hot: Option<Button>,
    pub pressed: bool,
    pub maximized: bool,
    pub w: u32,
    pub dpi: u32,
}

/// What the bar on the GPU shows.
pub struct BarKey {
    pub hot: Option<Tool>,
    pub fullscreen: bool,
    pub zoom: String,
    pub dpi: u32,
}

pub struct App {
    pub cfg: Config,
    pub nav: Nav,
    pub store: Store,
    pub tex: Textures,
    pub ui: Ui,
    /// The direction of travel: 1 or -1.
    pub dir: i8,
    pub file_size: u64,
    pub hidden: bool,
    /// Hidden by cloaking rather than by hiding the window: revealed at once.
    pub cloaked: bool,
    /// Shown again, the window is maximised if it was when hidden.
    pub restore_max: bool,
    pub first_frame: bool,
    /// Neighbours to put on the GPU once the current frame is out: uploaded in the same frame as a
    /// flip, they made the flip itself slower.
    pub prefetch_pending: bool,
    pub error: Option<String>,
    pub pill_text: String,
    /// What the setup card says beside its buttons.
    pub note: String,
    pub bar_at: Point,
    pub bar_items: Vec<(Tool, Rect)>,
    pub bar_key: Option<BarKey>,
    pub card_at: Point,
    pub card_items: Vec<(CardItem, Rect)>,
    pub caption_key: Option<CaptionKey>,
}

/// Pixels to upload: to which slot, with a chain of smaller ones or not, and whether they are to be
/// shown then.
#[derive(Clone, Copy, PartialEq, Eq, Structural, Debug)]
pub struct Upload {
    pub slot: usize,
    pub tex: Tex,
    pub mips: bool,
    pub show: bool,
}

/// What became of the pixels on the screen.
#[derive(Clone, Copy, PartialEq, Eq, Structural, Debug)]
pub enum Refreshed {
    /// They stay as they are.
    Same,
    /// Others are shown now: the photo is to be fitted anew.
    Shown,
    /// They are to be uploaded first.
    Upload(Upload),
}

impl App {
    pub open spec fn wf(self) -> bool {
        &&& self.nav.wf()
        &&& self.tex.wf()
        &&& self.ui.wf()
        &&& (self.dir == 1 || self.dir == -1)
    }

    /// The number of the current file.
    pub open spec fn current(self) -> Option<u64> {
        match self.nav.current() {
            Some(f) => Some(f.path),
            None => None,
        }
    }

    /// The pixels shown are the current file's.
    pub open spec fn shows_current(self) -> bool {
        self.tex.shown is Some && self.current() == Some(self.tex.shown->0.path)
    }

    pub fn cur_path(&self) -> (r: Option<u64>)
        ensures
            r == self.current(),
    {
        if self.nav.cur < self.nav.files.len() {
            Some(self.nav.files[self.nav.cur].path)
        } else {
            None
        }
    }

    /// A viewer for a window of this size. On the first start the setup card comes by itself, with
    /// every box ticked; a window that is not hidden goes fullscreen where the settings say so.
    pub fn new(
        cfg: Config,
        nav: Nav,
        w: u32,
        h: u32,
        dpi: u32,
        visible: bool,
        maximized: bool,
        installed: bool,
    ) -> (r: App)
        requires
            nav.wf(),
            w <= MAX_WINDOW,
            h <= MAX_WINDOW,
            dpi <= 0xffff,
        ensures
            r.wf(),
            r.cfg == cfg,
            r.nav == nav,
            r.hidden == !visible,
            !r.cloaked,
            r.restore_max == maximized,
            r.first_frame,
            !r.prefetch_pending,
            r.dir == 1,
            r.file_size == 0,
            r.error is None,
            r.tex.shown is None,
            r.tex.shown_slot == 0,
            forall|i: int| 0 <= i < IMAGE_SLOTS ==> #[trigger] r.tex.slots@[i] is None,
            r.store.cache@ == Map::<u64, Slot>::empty(),
            r.store.keep@ == (match r.current() {
                Some(p) => seq![p],
                None => Seq::<u64>::empty(),
            }),
            r.ui == (Ui {
                w,
                h,
                dpi,
                fullscreen: cfg.window == WindowMode::Fullscreen && visible,
                fit: true,
                rot: 0,
                info: cfg.info,
                ground: 0,
                topmost: false,
                opacity: 100,
                mouse: Point { x: 0, y: 0 },
                drag: None,
                hot: None,
                pressed: None,
                bar_hover: false,
                bar_hot: None,
                card: if !cfg.setup_done && visible {
                    Some(first_card(installed))
                } else {
                    None
                },
                dirty: true,
                chrome_dirty: true,
            }),
            r.pill_text@ == Seq::<char>::empty(),
            r.note@ == Seq::<char>::empty(),
            r.bar_at == (Point { x: 0, y: 0 }),
            r.bar_items@ == Seq::<(Tool, Rect)>::empty(),
            r.bar_key is None,
            r.card_at == (Point { x: 0, y: 0 }),
            r.card_items@ == Seq::<(CardItem, Rect)>::empty(),
            r.caption_key is None,
    {
        let mut ui = Ui::new(w, h, dpi, cfg.info);
        if !cfg.setup_done && visible {
            ui.card = Some(
                Card {
                    install: if installed {
                        None
                    } else {
                        Some(true)
                    },
                    autostart: true,
                    default: true,
                    hot: None,
                    dirty: true,
                },
            );
        }
        if cfg.window == WindowMode::Fullscreen && visible {
            ui.set_fullscreen(true);
        }
        let mut app = App {
            cfg,
            nav,
            store: Store::new(),
            tex: Textures::new(),
            ui,
            dir: 1,
            file_size: 0,
            hidden: !visible,
            cloaked: false,
            restore_max: maximized,
            first_frame: true,
            prefetch_pending: false,
            error: None,
            pill_text: String::new(),
            note: String::new(),
            bar_at: Point { x: 0, y: 0 },
            bar_items: Vec::new(),
            bar_key: None,
            card_at: Point { x: 0, y: 0 },
            card_items: Vec::new(),
            caption_key: None,
        };
        match app.cur_path() {
            Some(p) => {
                app.store.keep.push(p);
                assert(app.store.keep@ =~= seq![p]);
            },
            None => {},
        }
        app
    }

    /// The tool under a point, where the bar is there to be used.
    pub open spec fn tool_under(
        self,
        ui: Ui,
        x: int,
        y: int,
        zoomed_in: bool,
        bar_drawn: bool,
    ) -> Option<Tool> {
        if ui.bar_shows(self.nav.files@.len() > 0, zoomed_in) && bar_drawn {
            part_at(self.bar_items@, x - self.bar_at.x, y - self.bar_at.y)
        } else {
            None
        }
    }

    /// The item of the setup card under a point.
    pub open spec fn item_under(self, x: int, y: int) -> Option<CardItem> {
        if self.ui.card is Some {
            part_at(self.card_items@, x - self.card_at.x, y - self.card_at.y)
        } else {
            None
        }
    }

    pub fn tool_at(&self, ui: &Ui, x: i32, y: i32, zoomed_in: bool, bar_drawn: bool) -> (r: Option<
        Tool,
    >)
        ensures
            r == self.tool_under(*ui, x as int, y as int, zoomed_in, bar_drawn),
    {
        if ui.bar_visible(self.nav.files.len() > 0, zoomed_in) && bar_drawn {
            item_at(&self.bar_items, (self.bar_at.x, self.bar_at.y), x, y)
        } else {
            None
        }
    }

    pub fn card_item_at(&self, x: i32, y: i32) -> (r: Option<CardItem>)
        ensures
            r == self.item_under(x as int, y as int),
    {
        if self.ui.card.is_some() {
            item_at(&self.card_items, (self.card_at.x, self.card_at.y), x, y)
        } else {
            None
        }
    }

    /// What is around an event at a point: with the pointer moved, the bar comes up first.
    pub open spec fn around(
        self,
        e: Ev,
        shift: bool,
        ctrl: bool,
        zoomed_in: bool,
        bar_drawn: bool,
    ) -> Around {
        let p = point_of(e);
        let ui = if e is MouseMove {
            Ui { bar_hover: hovers(self.ui, p.y as int), ..self.ui }
        } else {
            self.ui
        };
        Around {
            shift,
            ctrl,
            wheel_zoom: self.cfg.wheel_zoom,
            tool: self.tool_under(ui, p.x as int, p.y as int, zoomed_in, bar_drawn),
            item: self.item_under(p.x as int, p.y as int),
        }
    }

    /// Take an event: what it asks for. How the viewer looks is changed by it; what the photos
    /// decide is left to the command.
    pub fn event(
        &mut self,
        e: Ev,
        shift: bool,
        ctrl: bool,
        zoomed_in: bool,
        bar_drawn: bool,
    ) -> (r: Command)
        requires
            old(self).wf(),
            event_fits(e),
        ensures
            final(self).wf(),
            r == asked(old(self).ui, e, old(self).around(e, shift, ctrl, zoomed_in, bar_drawn)),
            *final(self) == (App { ui: taken(old(self).ui, r), ..*old(self) }),
    {
        let p = point(e);
        let hover: bool = match e {
            Ev::MouseMove(_, y) => self.ui.drag.is_none() && self.ui.in_bar_zone(y),
            _ => self.ui.bar_hover,
        };
        let ui = Ui { bar_hover: hover, ..self.ui };
        let a = Around {
            shift,
            ctrl,
            wheel_zoom: self.cfg.wheel_zoom,
            tool: self.tool_at(&ui, p.x, p.y, zoomed_in, bar_drawn),
            item: self.card_item_at(p.x, p.y),
        };
        assert(a == self.around(e, shift, ctrl, zoomed_in, bar_drawn));
        let c = command(&self.ui, e, a);
        proof {
            lemma_asked_fits(self.ui, e, a);
        }
        self.ui.take(c);
        c
    }
}

/// The point an event is at.
pub open spec fn point_of(e: Ev) -> Point {
    match e {
        Ev::MouseMove(x, y) => Point { x, y },
        Ev::DoubleClick(x, y) => Point { x, y },
        Ev::Button { x, y, .. } => Point { x, y },
        Ev::Wheel { x, y, .. } => Point { x, y },
        _ => Point { x: 0, y: 0 },
    }
}

fn point(e: Ev) -> (p: Point)
    ensures
        p == point_of(e),
{
    match e {
        Ev::MouseMove(x, y) => Point { x, y },
        Ev::DoubleClick(x, y) => Point { x, y },
        Ev::Button { x, y, .. } => Point { x, y },
        Ev::Wheel { x, y, .. } => Point { x, y },
        _ => Point { x: 0, y: 0 },
    }
}

/// The card on the first start: every box ticked.
pub open spec fn first_card(installed: bool) -> Card {
    Card {
        install: if installed {
            None
        } else {
            Some(true)
        },
        autostart: true,
        default: true,
        hot: None,
        dirty: true,
    }
}

/// A change of the current file: what the window is to be called, and what was scheduled.
pub struct Changed {
    pub title: String,
    pub scheduled: Scheduled,
}

/// The name of the current file, where there is one.
pub open spec fn cur_name(nav: Nav) -> Option<Seq<char>> {
    match nav.current() {
        Some(f) => Some(f.name@),
        None => None,
    }
}

/// What the window is called: after the file.
pub open spec fn window_title(nav: Nav) -> Seq<char> {
    match cur_name(nav) {
        Some(n) => n + " — Glint"@,
        None => "Glint"@,
    }
}

/// What scheduling leaves in the store and gives.
pub open spec fn scheduled(before: Store, after: Store, nav: Nav, dir: int, cfg: Config, s: Scheduled) -> bool {
    if nav.files@.len() == 0 {
        &&& after.cache@ == Map::<u64, Slot>::empty()
        &&& after.keep@ == Seq::<u64>::empty()
        &&& s.jobs@ == Seq::<Key>::empty()
        &&& s.gone@ == before.cache@
        &&& s.freed@ == Seq::<Img>::empty()
    } else {
        let w = wanted(nav, dir, cfg);
        &&& w.len() > 0
        &&& w[0] == nav.files@[nav.cur as int].path
        &&& after.keep@ == w
        &&& after.cache@ == kept(before.cache@, w, w[0])
        &&& s.jobs@ == crate::cache::jobs_of(w, after.cache@, w.len())
        &&& s.gone@ == before.cache@.remove_keys(w.to_set())
        &&& s.freed@ == crate::cache::fulls_of(w, before.cache@, w.len())
    }
}

/// What came from the decoding threads.
#[derive(Clone, Copy, PartialEq, Eq, Structural, Debug)]
pub enum Came {
    /// Of no use any more.
    Nothing,
    Pixels,
    Listing,
}

/// What a batch of them came to.
#[derive(Clone, Copy, PartialEq, Eq, Structural, Debug)]
pub enum Batch {
    Nothing,
    /// Pixels to be shown, if they are the current file's.
    Pixels,
    /// The current file may be another one.
    Current,
}

/// A batch with a listing in it, or with pixels: the listing counts, since it is followed by a look
/// at the pixels too.
pub fn came_to(listed: bool, changed: bool) -> (r: Batch)
    ensures
        r == (if listed {
            Batch::Current
        } else if changed {
            Batch::Pixels
        } else {
            Batch::Nothing
        }),
{
    if listed {
        Batch::Current
    } else if changed {
        Batch::Pixels
    } else {
        Batch::Nothing
    }
}

impl App {
    /// Go to a file, where that is another one. With a direction the travel goes on that way.
    pub fn go(&mut self, i: usize, dir: i8) -> (changed: bool)
        requires
            old(self).wf(),
            dir == 1 || dir == -1,
        ensures
            final(self).wf(),
            changed == (i != old(self).nav.cur && i < old(self).nav.files@.len()),
            final(self).nav.cur == (if changed {
                i
            } else {
                old(self).nav.cur
            }),
            final(self).nav == (Nav { cur: final(self).nav.cur, ..old(self).nav }),
            *final(self) == (App {
                nav: final(self).nav,
                dir: if changed {
                    dir
                } else {
                    old(self).dir
                },
                ..*old(self)
            }),
    {
        let changed: bool = self.nav.go(i);
        if changed {
            self.dir = dir;
        }
        changed
    }

    /// The image `d` places on, or so far back where `d` is below zero.
    pub fn step(&mut self, d: isize) -> (changed: bool)
        requires
            old(self).wf(),
        ensures
            final(self).wf(),
            ({
                let n = old(self).nav.files@.len() as int;
                let to = stepped(old(self).nav.cur as int, n, d as int, old(self).cfg.wrap);
                &&& changed == (n > 0 && to != old(self).nav.cur)
                &&& final(self).nav.cur == (if changed {
                    to
                } else {
                    old(self).nav.cur as int
                })
                &&& final(self).nav == (Nav { cur: final(self).nav.cur, ..old(self).nav })
                &&& final(self).dir == (if changed {
                    if d < 0 {
                        -1int
                    } else {
                        1
                    }
                } else {
                    old(self).dir as int
                })
            }),
            *final(self) == (App { nav: final(self).nav, dir: final(self).dir, ..*old(self) }),
    {
        match self.nav.step(d, self.cfg.wrap) {
            Some(i) => self.go(
                i,
                if d < 0 {
                    -1
                } else {
                    1
                },
            ),
            None => false,
        }
    }

    /// The first image of the folder.
    pub fn first(&mut self) -> (changed: bool)
        requires
            old(self).wf(),
        ensures
            final(self).wf(),
            changed == (old(self).nav.cur != 0),
            final(self).nav == (Nav { cur: 0, ..old(self).nav }),
            *final(self) == (App {
                nav: final(self).nav,
                dir: if changed {
                    -1i8
                } else {
                    old(self).dir
                },
                ..*old(self)
            }),
    {
        self.go(0, -1)
    }

    /// The last image of the folder.
    pub fn last(&mut self) -> (changed: bool)
        requires
            old(self).wf(),
        ensures
            final(self).wf(),
            changed == (old(self).nav.files@.len() > 0 && old(self).nav.cur != old(
                self,
            ).nav.files@.len() - 1),
            final(self).nav.cur == (if old(self).nav.files@.len() > 0 {
                old(self).nav.files@.len() - 1
            } else {
                0
            }),
            final(self).nav == (Nav { cur: final(self).nav.cur, ..old(self).nav }),
            *final(self) == (App {
                nav: final(self).nav,
                dir: if changed {
                    1
                } else {
                    old(self).dir
                },
                ..*old(self)
            }),
    {
        let n: usize = self.nav.files.len();
        self.go(
            if n > 0 {
                n - 1
            } else {
                0
            },
            1,
        )
    }

    pub fn title(&self) -> (r: String)
        requires
            self.wf(),
        ensures
            r@ == window_title(self.nav),
    {
        if self.nav.cur < self.nav.files.len() {
            cat2(self.nav.files[self.nav.cur].name.as_str(), " — Glint")
        } else {
            "Glint".to_owned()
        }
    }

    /// Tell the loader what is wanted now.
    pub fn schedule(&mut self) -> (r: Scheduled)
        requires
            old(self).wf(),
        ensures
            final(self).wf(),
            scheduled(
                old(self).store,
                final(self).store,
                old(self).nav,
                old(self).dir as int,
                old(self).cfg,
                r,
            ),
            *final(self) == (App { store: final(self).store, ..*old(self) }),
    {
        self.store.schedule(&self.nav, self.dir, &self.cfg)
    }

    /// Another file is current: the window is called after it, and what it needs is scheduled. Its
    /// pixels are put on the GPU next.
    pub fn cur_changed(&mut self, file_size: u64) -> (r: Changed)
        requires
            old(self).wf(),
        ensures
            final(self).wf(),
            r.title@ == window_title(old(self).nav),
            scheduled(
                old(self).store,
                final(self).store,
                old(self).nav,
                old(self).dir as int,
                old(self).cfg,
                r.scheduled,
            ),
            *final(self) == (App {
                store: final(self).store,
                file_size,
                prefetch_pending: true,
                ui: redrawn(old(self).ui),
                ..*old(self)
            }),
    {
        let title = self.title();
        self.file_size = file_size;
        let scheduled = self.schedule();
        self.prefetch_pending = true;
        self.ui.redraw();
        Changed { title, scheduled }
    }

    /// Take what the decoding threads sent, one message. The pixels that are of no use are handed
    /// back.
    pub fn take_loaded(&mut self, m: Msg) -> (r: (Came, Option<Img>))
        requires
            old(self).wf(),
        ensures
            final(self).wf(),
            m matches Msg::Decoded { path, kind, img } ==> {
                let s = if old(self).store.cache@.dom().contains(path) {
                    old(self).store.cache@[path]
                } else {
                    crate::cache::empty_slot()
                };
                let wanted = old(self).store.keep@.contains(path);
                &&& r.0 == (if wanted {
                    Came::Pixels
                } else {
                    Came::Nothing
                })
                &&& r.1 == (if wanted {
                    crate::cache::left_over(s, kind, img)
                } else {
                    match img {
                        Ok(i) => Some(i),
                        Err(_) => None,
                    }
                })
                &&& final(self).store.keep == old(self).store.keep
                &&& final(self).store.cache@ == (if wanted {
                    old(self).store.cache@.insert(path, crate::cache::taken_in(s, kind, img))
                } else {
                    old(self).store.cache@
                })
                &&& *final(self) == (App { store: final(self).store, ..*old(self) })
            },
            m matches Msg::Listed { generation, files } ==> {
                &&& r.0 == (if generation == old(self).nav.generation {
                    Came::Listing
                } else {
                    Came::Nothing
                })
                &&& r.1 is None
                &&& listing_taken(old(self).nav, final(self).nav, generation, files@)
                &&& *final(self) == (App { nav: final(self).nav, ..*old(self) })
            },
    {
        match m {
            Msg::Decoded { path, kind, img } => {
                let (wanted, over): (bool, Option<Img>) = self.store.receive(path, kind, img);
                (
                    if wanted {
                        Came::Pixels
                    } else {
                        Came::Nothing
                    },
                    over,
                )
            },
            Msg::Listed { generation, files } => {
                let taken: bool = self.nav.listed(generation, files);
                (
                    if taken {
                        Came::Listing
                    } else {
                        Came::Nothing
                    },
                    None,
                )
            },
        }
    }

    /// Pixels came and no listing: planned once, after everything that came. A listing planned
    /// before the decoded preview behind it asked for that same preview a second time.
    pub fn pixels_came(&mut self) -> (r: Scheduled)
        requires
            old(self).wf(),
        ensures
            final(self).wf(),
            scheduled(
                old(self).store,
                final(self).store,
                old(self).nav,
                old(self).dir as int,
                old(self).cfg,
                r,
            ),
            *final(self) == (App {
                store: final(self).store,
                prefetch_pending: true,
                ui: redrawn(old(self).ui),
                ..*old(self)
            }),
    {
        let r = self.schedule();
        self.prefetch_pending = true;
        self.ui.redraw();
        r
    }

    /// The current file has something to show, or never will have a stand-in.
    pub fn cur_ready(&self) -> (r: bool)
        ensures
            r == (self.current() is Some && self.store.cache@.dom().contains(self.current()->0) && {
                let s = self.store.cache@[self.current()->0];
                best_of(s) is Some || s.err is Some || s.thumb_tried
            }),
    {
        self.store.ready(self.cur_path())
    }

    /// Start browsing at a file or a folder.
    pub fn open(&mut self, t: Target) -> (r: Opened)
        requires
            old(self).wf(),
        ensures
            final(self).wf(),
            final(self).nav.cur == 0,
            final(self).nav.generation == old(self).nav.generation.wrapping_add(1),
            t.folder ==> final(self).nav.files@.len() == 0 && final(self).nav.select is None
                && r.plan is None && r.list == Some(t.file.path),
            !t.folder ==> {
                &&& final(self).nav.files@.len() == 1
                &&& same_file(final(self).nav.files@[0], t.file)
                &&& final(self).nav.select == Some(t.file)
                &&& r.plan is Some
                &&& r.plan->0@ == seq![
                    Key { path: t.file.path, kind: crate::loader::THUMB },
                    Key { path: t.file.path, kind: crate::loader::PREVIEW },
                ]
                &&& r.list == t.parent
            },
            *final(self) == (App { nav: final(self).nav, ..*old(self) }),
    {
        let (nav, opened): (Nav, Opened) = Nav::open(t, self.nav.generation);
        self.nav = nav;
        opened
    }
}

/// The pixels to show of a file: the best there are.
pub open spec fn pixels(store: Store, path: u64) -> Option<Img> {
    if store.cache@.dom().contains(path) {
        best_of(store.cache@[path])
    } else {
        None
    }
}

/// Nothing of the file can be shown.
pub open spec fn failed(store: Store, path: u64) -> bool {
    store.cache@.dom().contains(path) && store.cache@[path].err is Some && best_of(
        store.cache@[path],
    ) is None
}

/// Other pixels are shown. Of another file than before they are fitted in the window and not turned,
/// unless zoom and turn are to be kept; better pixels of the file that was shown, and any where they are
/// to be kept, leave both as they were.
pub proof fn law_new_photo_is_fitted(before: App, after: App)
    requires
        after.tex.shown is Some,
        after.ui == fitted(before.ui, before.anew(after.tex.shown->0.path)),
    ensures
        ({
            let path = after.tex.shown->0.path;
            let same = before.tex.shown is Some && before.tex.shown->0.path == path;
            &&& !same && !before.cfg.keep_zoom ==> after.ui.fit && after.ui.rot == 0
            &&& same || before.cfg.keep_zoom ==> after.ui.fit == before.ui.fit && after.ui.rot
                == before.ui.rot
            &&& after.ui == (Ui {
                fit: after.ui.fit,
                rot: after.ui.rot,
                dirty: true,
                chrome_dirty: true,
                ..before.ui
            })
        }),
{
}

/// How the viewer looks with other pixels: a new file is fitted, and not turned.
pub open spec fn fitted(ui: Ui, anew: bool) -> Ui {
    redrawn(
        Ui {
            fit: ui.fit || anew,
            rot: if anew {
                0
            } else {
                ui.rot
            },
            ..ui
        },
    )
}

impl App {
    /// Whether pixels may go to the slot they are to be uploaded to: it is the shown photo's only
    /// for the same file, and no other slot holds the file.
    pub open spec fn upload_ok(self, u: Upload) -> bool {
        &&& u.slot < IMAGE_SLOTS
        &&& self.tex.shown is Some && u.slot == self.tex.shown_slot ==> self.tex.shown->0.path
            == u.tex.path
        &&& forall|j: int|
            0 <= j < IMAGE_SLOTS && j != u.slot ==> !of_file(
                #[trigger] self.tex.slots@[j],
                u.tex.path,
            )
    }

    /// The pixels shown are those of another file.
    pub open spec fn anew(self, path: u64) -> bool {
        !of_file(self.tex.shown, path) && !self.cfg.keep_zoom
    }

    /// Show the photo of a slot.
    fn show_slot(&mut self, i: usize, path: u64)
        requires
            old(self).wf(),
            i < IMAGE_SLOTS,
            old(self).tex.slots@[i as int] is Some,
        ensures
            final(self).wf(),
            final(self).tex.slots@ == old(self).tex.slots@,
            final(self).tex.shown == old(self).tex.slots@[i as int],
            final(self).tex.shown_slot == i,
            *final(self) == (App {
                tex: final(self).tex,
                ui: fitted(old(self).ui, old(self).anew(path)),
                ..*old(self)
            }),
    {
        let new_file: bool = match self.tex.shown {
            Some(t) => t.path != path,
            None => true,
        };
        self.tex.show(i);
        if new_file && !self.cfg.keep_zoom {
            self.ui.fit = true;
            self.ui.rot = 0;
        }
        self.ui.redraw();
    }

    /// Put the best pixels there are for the current file on the screen. Until they come, the
    /// previous photo stays: a black flash on every flip is worse than a moment of the old one.
    pub fn refresh_texture(&mut self) -> (r: Refreshed)
        requires
            old(self).wf(),
        ensures
            final(self).wf(),
            // No file, or one that cannot be opened: nothing is shown.
            old(self).current() is None ==> r == Refreshed::Same && final(self).tex.shown is None
                && final(self).tex.slots@ == old(self).tex.slots@ && *final(self) == (App {
                tex: final(self).tex,
                ..*old(self)
            }),
            old(self).current() matches Some(p) ==> {
                &&& failed(old(self).store, p) ==> r == Refreshed::Same && final(self).tex.shown is None
                    && final(self).tex.slots@ == old(self).tex.slots@ && *final(self) == (App {
                    tex: final(self).tex,
                    ui: Ui { dirty: true, ..old(self).ui },
                    ..*old(self)
                })
                &&& !failed(old(self).store, p) && pixels(old(self).store, p) is None ==> r
                    == Refreshed::Same && *final(self) == *old(self)
                &&& pixels(old(self).store, p) matches Some(img) ==> {
                    let t = facts(p, img);
                    let serves = |s: Option<Tex>| s is Some && s->0.good_for(t);
                    if serves(old(self).tex.shown) {
                        r == Refreshed::Same && *final(self) == *old(self)
                    } else {
                        match r {
                            Refreshed::Same => false,
                            Refreshed::Shown => {
                                &&& crate::textures::first(
                                    old(self).tex.slots@,
                                    serves,
                                    final(self).tex.shown_slot as int,
                                )
                                &&& final(self).tex.slots@ == old(self).tex.slots@
                                &&& final(self).tex.shown
                                    == old(self).tex.slots@[final(self).tex.shown_slot as int]
                                &&& final(self).tex.shown is Some && final(self).tex.shown->0.path == p
                                &&& {
                                    let same = old(self).tex.shown is Some
                                        && old(self).tex.shown->0.path == p;
                                    &&& !same && !old(self).cfg.keep_zoom ==> final(self).ui.fit
                                        && final(self).ui.rot == 0
                                    &&& same || old(self).cfg.keep_zoom ==> final(self).ui.fit
                                        == old(self).ui.fit && final(self).ui.rot == old(self).ui.rot
                                }
                                &&& *final(self) == (App {
                                    tex: final(self).tex,
                                    ui: fitted(old(self).ui, old(self).anew(p)),
                                    ..*old(self)
                                })
                            },
                            Refreshed::Upload(u) => {
                                &&& *final(self) == *old(self)
                                &&& u.tex == t
                                &&& u.mips == !img.thumb
                                &&& u.show
                                &&& old(self).upload_ok(u)
                                &&& old(self).tex.given_up(
                                    p,
                                    old(self).nav.files@,
                                    old(self).nav.cur as int,
                                    u.slot as int,
                                )
                                &&& forall|j: int|
                                    0 <= j < IMAGE_SLOTS ==> !serves(
                                        #[trigger] old(self).tex.slots@[j],
                                    )
                            },
                        }
                    }
                }
            },
    {
        let path: u64 = match self.cur_path() {
            Some(p) => p,
            None => {
                self.tex.show_nothing();
                return Refreshed::Same;
            },
        };
        let (t, mips): (Tex, bool) = match self.store.get(path) {
            Some(s) => match s.best() {
                Some(img) => (Tex::of(path, img), !img.thumb),
                None => {
                    if s.err.is_some() {
                        self.tex.show_nothing();
                        self.ui.dirty = true;
                    }
                    return Refreshed::Same;
                },
            },
            None => {
                return Refreshed::Same;
            },
        };
        match self.tex.shown {
            Some(s) => if s.serves(&t) {
                return Refreshed::Same;
            },
            None => {},
        }
        match self.tex.on_gpu(&t, &self.nav.files, self.nav.cur) {
            Place::Ready(i) => {
                self.show_slot(i, path);
                Refreshed::Shown
            },
            Place::Upload(i) => Refreshed::Upload(Upload { slot: i, tex: t, mips, show: true }),
        }
    }

    /// An upload is over, with an error or without. A frame is drawn at once, so that it is done by
    /// the time the user flips to it.
    #[verifier::rlimit(40)]
    pub fn uploaded(&mut self, u: Upload, error: Option<String>) -> (r: Refreshed)
        requires
            old(self).wf(),
            old(self).upload_ok(u),
        ensures
            final(self).wf(),
            error is Some ==> r == Refreshed::Same && *final(self) == (App { error, ..*old(self) }),
            error is None ==> {
                &&& final(self).tex.slots@ == old(self).tex.slots@.update(
                    u.slot as int,
                    Some(u.tex),
                )
                &&& u.show ==> {
                    &&& r == Refreshed::Shown
                    &&& final(self).tex.shown == Some(u.tex)
                    &&& final(self).tex.shown_slot == u.slot
                    &&& {
                        let same = old(self).tex.shown is Some && old(self).tex.shown->0.path
                            == u.tex.path;
                        &&& !same && !old(self).cfg.keep_zoom ==> final(self).ui.fit
                            && final(self).ui.rot == 0
                        &&& same || old(self).cfg.keep_zoom ==> final(self).ui.fit
                            == old(self).ui.fit && final(self).ui.rot == old(self).ui.rot
                    }
                    &&& *final(self) == (App {
                        tex: final(self).tex,
                        ui: fitted(old(self).ui, old(self).anew(u.tex.path)),
                        ..*old(self)
                    })
                }
                &&& !u.show ==> {
                    &&& r == Refreshed::Same
                    &&& final(self).tex.shown == old(self).tex.shown
                    &&& final(self).tex.shown_slot == old(self).tex.shown_slot
                    &&& *final(self) == (App {
                        tex: final(self).tex,
                        ui: Ui { dirty: true, ..old(self).ui },
                        ..*old(self)
                    })
                }
            },
    {
        if error.is_some() {
            self.error = error;
            return Refreshed::Same;
        }
        self.tex.put(u.slot, u.tex);
        self.ui.dirty = true;
        if u.show {
            let ghost mid = *self;
            assert(mid.anew(u.tex.path) == old(self).anew(u.tex.path));
            self.show_slot(u.slot, u.tex.path);
            assert(self.ui == fitted(old(self).ui, old(self).anew(u.tex.path)));
            Refreshed::Shown
        } else {
            Refreshed::Same
        }
    }

    /// The neighbours put on the GPU ahead of the flip: the next one in the direction of travel,
    /// the previous one, and the one after next.
    pub open spec fn prefetched(self, k: int) -> Option<u64> {
        let n = self.nav.files@.len() as int;
        let d: int = if k == 0 {
            self.dir as int
        } else if k == 1 {
            -self.dir
        } else {
            2 * self.dir
        };
        if n < 2 {
            None
        } else {
            match near(self.nav.cur as int, n, d, self.cfg.wrap) {
                Some(i) => Some(self.nav.files@[i].path),
                None => None,
            }
        }
    }

    /// The pixels of a neighbour to upload, where there are any and no slot holds as good ones.
    pub fn prefetch_gpu(&self, k: usize) -> (r: Option<Upload>)
        requires
            self.wf(),
            k < 3,
        ensures
            ({
                let p = self.prefetched(k as int);
                let img = pixels(self.store, p->0);
                let t = facts(p->0, img->0);
                let needed = p is Some && img is Some && forall|j: int|
                    0 <= j < IMAGE_SLOTS ==> !(#[trigger] self.tex.slots@[j] is Some
                        && self.tex.slots@[j]->0.good_for(t));
                &&& r is Some <==> needed
                &&& r matches Some(u) ==> {
                    &&& u.tex == t
                    &&& u.mips == !(img->0).thumb
                    &&& !u.show
                    &&& self.upload_ok(u)
                    &&& self.tex.given_up(
                        p->0,
                        self.nav.files@,
                        self.nav.cur as int,
                        u.slot as int,
                    )
                }
            }),
    {
        let n: usize = self.nav.files.len();
        if n < 2 {
            return None;
        }
        let d: i128 = if k == 0 {
            self.dir as i128
        } else if k == 1 {
            -(self.dir as i128)
        } else {
            2 * self.dir as i128
        };
        let path: u64 = match near_of(self.nav.cur, n, d, self.cfg.wrap) {
            Some(i) => self.nav.files[i].path,
            None => {
                return None;
            },
        };
        assert(self.prefetched(k as int) == Some(path));
        let (t, mips): (Tex, bool) = match self.store.get(path) {
            Some(s) => match s.best() {
                Some(img) => (Tex::of(path, img), !img.thumb),
                None => {
                    return None;
                },
            },
            None => {
                return None;
            },
        };
        match self.tex.on_gpu(&t, &self.nav.files, self.nav.cur) {
            Place::Ready(i) => {
                assert(self.tex.slots@[i as int] is Some);
                None
            },
            Place::Upload(i) => Some(Upload { slot: i, tex: t, mips, show: false }),
        }
    }

    /// The current file went to the recycle bin: out of the folder, out of memory, off the screen
    /// and off the GPU. Gives the slot that held it, to be cleared, and its pixels.
    pub fn delete(&mut self) -> (r: (Option<usize>, Option<Slot>))
        requires
            old(self).wf(),
            old(self).current() is Some,
        ensures
            final(self).wf(),
            ({
                let p = old(self).current()->0;
                &&& final(self).nav.files@ == old(self).nav.files@.remove(old(self).nav.cur as int)
                &&& final(self).nav.cur == (if old(self).nav.cur < old(self).nav.files@.len() - 1 {
                    old(self).nav.cur as int
                } else if old(self).nav.files@.len() >= 2 {
                    old(self).nav.files@.len() - 2
                } else {
                    0
                })
                &&& final(self).nav.generation == old(self).nav.generation
                &&& final(self).nav.select == old(self).nav.select
                &&& final(self).store.cache@ == old(self).store.cache@.remove(p)
                &&& final(self).store.keep == old(self).store.keep
                &&& final(self).tex.shown == (if of_file(old(self).tex.shown, p) {
                    None
                } else {
                    old(self).tex.shown
                })
                &&& final(self).tex.shown_slot == old(self).tex.shown_slot
                &&& forall|j: int|
                    0 <= j < IMAGE_SLOTS ==> #[trigger] final(self).tex.slots@[j] == (if of_file(
                        old(self).tex.slots@[j],
                        p,
                    ) {
                        None
                    } else {
                        old(self).tex.slots@[j]
                    })
                &&& r.0 matches Some(i) ==> i < IMAGE_SLOTS && of_file(
                    old(self).tex.slots@[i as int],
                    p,
                )
                &&& r.0 is None ==> forall|j: int|
                    0 <= j < IMAGE_SLOTS ==> !of_file(#[trigger] old(self).tex.slots@[j], p)
                &&& r.1 is Some <==> old(self).store.cache@.dom().contains(p)
                &&& r.1 matches Some(s) ==> s == old(self).store.cache@[p]
            }),
            *final(self) == (App {
                nav: final(self).nav,
                store: final(self).store,
                tex: final(self).tex,
                ..*old(self)
            }),
    {
        let p: u64 = self.nav.files[self.nav.cur].path;
        self.nav.remove();
        let gone = self.store.remove(p);
        let slot = self.tex.forget(p);
        (slot, gone)
    }
}

/// The neighbours put on the GPU ahead of the flip, in a folder without wrapping: travelling on, the
/// next file, the one before, and the one after next; travelling back, their mirror images. Past an end
/// there is none; alone in its folder a file has no neighbours.
pub proof fn law_neighbours_ahead(a: App, k: int)
    requires
        a.wf(),
        0 <= k < 3,
    ensures
        ({
            let n = a.nav.files@.len() as int;
            let c = a.nav.cur as int;
            let path = |i: int| a.nav.files@[i].path;
            let on = a.dir == 1;
            &&& n < 2 ==> a.prefetched(k) is None
            &&& n >= 2 && !a.cfg.wrap ==> {
                &&& on ==> a.prefetched(0) == (if c + 1 < n {
                    Some(path(c + 1))
                } else {
                    None
                })
                &&& on ==> a.prefetched(1) == (if c >= 1 {
                    Some(path(c - 1))
                } else {
                    None
                })
                &&& on ==> a.prefetched(2) == (if c + 2 < n {
                    Some(path(c + 2))
                } else {
                    None
                })
                &&& !on ==> a.prefetched(0) == (if c >= 1 {
                    Some(path(c - 1))
                } else {
                    None
                })
                &&& !on ==> a.prefetched(1) == (if c + 1 < n {
                    Some(path(c + 1))
                } else {
                    None
                })
                &&& !on ==> a.prefetched(2) == (if c >= 2 {
                    Some(path(c - 2))
                } else {
                    None
                })
            }
            &&& n >= 2 && a.cfg.wrap && on ==> {
                &&& c == n - 1 ==> a.prefetched(0) == Some(path(0))
                &&& c < n - 1 ==> a.prefetched(0) == Some(path(c + 1))
                &&& c == 0 ==> a.prefetched(1) == Some(path(n - 1))
                &&& c > 0 ==> a.prefetched(1) == Some(path(c - 1))
            }
        }),
{
    let n = a.nav.files@.len() as int;
    let c = a.nav.cur as int;
    if n >= 2 {
        vstd::arithmetic::div_mod::lemma_mod_self_0(n);
        if c + 1 < n {
            vstd::arithmetic::div_mod::lemma_small_mod((c + 1) as nat, n as nat);
        }
        if c > 0 {
            vstd::arithmetic::div_mod::lemma_small_mod((c - 1) as nat, n as nat);
        } else {
            vstd::arithmetic::div_mod::lemma_mod_add_multiples_vanish(-1, n);
            vstd::arithmetic::div_mod::lemma_small_mod((n - 1) as nat, n as nat);
        }
    }
}

/// A tool is got at where the bar shows and was drawn, by a point inside the tool's own part of it, as
/// far from the bar's corner as from the window's less the corner's; an item of the setup card likewise,
/// while the card is open.
pub proof fn law_under_the_pointer(a: App, x: int, y: int, zoomed_in: bool, drawn: bool)
    ensures
        a.tool_under(a.ui, x, y, zoomed_in, drawn) matches Some(t) ==> {
            &&& drawn && a.ui.card is None && a.nav.files@.len() > 0
            &&& exists|i: int|
                0 <= i < a.bar_items@.len() && (#[trigger] a.bar_items@[i]).0 == t
                    && a.bar_items@[i].1.holds(x - a.bar_at.x, y - a.bar_at.y)
        },
        a.item_under(x, y) matches Some(t) ==> {
            &&& a.ui.card is Some
            &&& exists|i: int|
                0 <= i < a.card_items@.len() && (#[trigger] a.card_items@[i]).0 == t
                    && a.card_items@[i].1.holds(x - a.card_at.x, y - a.card_at.y)
        },
        forall|i: int|
            a.ui.card is Some && 0 <= i < a.card_items@.len() && (#[trigger] a.card_items@[i]).1.holds(
                x - a.card_at.x,
                y - a.card_at.y,
            ) ==> a.item_under(x, y) is Some,
        forall|i: int|
            drawn && a.ui.bar_shows(a.nav.files@.len() > 0, zoomed_in) && 0 <= i < a.bar_items@.len()
                && (#[trigger] a.bar_items@[i]).1.holds(x - a.bar_at.x, y - a.bar_at.y)
                ==> a.tool_under(a.ui, x, y, zoomed_in, drawn) is Some,
{
    crate::ui::lemma_part_at(a.bar_items@, x - a.bar_at.x, y - a.bar_at.y);
    crate::ui::lemma_part_at(a.card_items@, x - a.card_at.x, y - a.card_at.y);
}

/// What is around an event: the keys held, whether the wheel zooms, and the tool and the item under the
/// point the event is at. With the pointer moved, the bar is up where the pointer is near the bottom.
pub proof fn law_around(a: App, e: Ev, shift: bool, ctrl: bool, zoomed_in: bool, drawn: bool)
    ensures
        ({
            let r = a.around(e, shift, ctrl, zoomed_in, drawn);
            let at = |x: i32, y: i32|
                r.item == a.item_under(x as int, y as int) && (!(e is MouseMove) ==> r.tool == a.tool_under(
                    a.ui,
                    x as int,
                    y as int,
                    zoomed_in,
                    drawn,
                ));
            &&& r.shift == shift && r.ctrl == ctrl && r.wheel_zoom == a.cfg.wheel_zoom
            &&& e matches Ev::Button { x, y, .. } ==> at(x, y)
            &&& e matches Ev::DoubleClick(x, y) ==> at(x, y)
            &&& e matches Ev::Wheel { x, y, .. } ==> at(x, y)
            &&& e matches Ev::MouseMove(x, y) ==> at(x, y) && r.tool == a.tool_under(
                Ui {
                    bar_hover: a.ui.drag is None && y >= a.ui.h - crate::ui::at_dpi(96, a.ui.dpi),
                    ..a.ui
                },
                x as int,
                y as int,
                zoomed_in,
                drawn,
            )
        }),
{
}

/// The window is called after the file, and by the viewer's own name where there is none. On the first
/// start every box of the card is ticked, but there is nothing to install where this is installed.
pub proof fn law_first_impressions(nav: Nav, installed: bool)
    ensures
        cur_name(nav) matches Some(n) ==> window_title(nav) == n + " — Glint"@,
        nav.files@.len() == 0 ==> window_title(nav) == "Glint"@,
        nav.cur < nav.files@.len() ==> cur_name(nav) == Some(nav.files@[nav.cur as int].name@),
        ({
            let c = first_card(installed);
            &&& c.autostart && c.default && c.dirty && c.hot is None
            &&& installed ==> c.install is None
            &&& !installed ==> c.install == Some(true)
        }),
{
}

/// A file failed where it has an error and nothing of it can be shown: with pixels of any kind it did not.
pub proof fn law_failed(store: Store, p: u64)
    ensures
        ({
            let there = store.cache@.dom().contains(p);
            let s = store.cache@[p];
            &&& pixels(store, p) is Some <==> there && (s.full is Some || s.preview is Some || s.thumb is Some)
            &&& failed(store, p) <==> there && s.err is Some && s.full is None && s.preview is None
                && s.thumb is None
        }),
{
}

/// Scheduling loses nothing: what was in memory is kept or handed out to be freed, and not both.
pub proof fn law_nothing_is_lost(
    before: Store,
    after: Store,
    nav: Nav,
    dir: int,
    cfg: Config,
    s: Scheduled,
    p: u64,
)
    requires
        scheduled(before, after, nav, dir, cfg, s),
        before.cache@.dom().contains(p),
    ensures
        after.cache@.dom().contains(p) != s.gone@.dom().contains(p),
        s.gone@.dom().contains(p) ==> s.gone@[p] == before.cache@[p],
        after.cache@.dom().contains(p) ==> after.keep@.contains(p),
        nav.files@.len() == 0 ==> s.gone@.dom().contains(p) && s.jobs@.len() == 0,
{
}

/// The photo shown is the current file's where the numbers say so.
pub proof fn law_shows_current(a: App)
    ensures
        a.shows_current() <==> a.tex.shown is Some && a.nav.cur < a.nav.files@.len()
            && a.nav.files@[a.nav.cur as int].path == a.tex.shown->0.path,
{
}

} // verus!
