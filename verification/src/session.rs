//! The viewer's comings and goings: shown and hidden, placed and remembered, set up and installed.

use crate::app::App;
use crate::cache::Slot;
use crate::config::{place_text, placement_text, Config, WindowMode};
use crate::geom::{Placement, Rect};
use crate::input::{full, redrawn, Card, Ui};
use crate::text::{cat2, join, joined, said};
use crate::textures::IMAGE_SLOTS;
use std::collections::HashMap;
use vstd::prelude::*;

verus! {

/// How the window comes to the front.
#[derive(Clone, Copy, PartialEq, Eq, Structural, Debug)]
pub enum Showing {
    /// It is there already.
    Focus,
    /// The frame is drawn first, and then the cloak comes off.
    Reveal,
    Show { maximized: bool },
}

/// What closing the window does.
#[derive(Clone, Copy, PartialEq, Eq, Structural, Debug)]
pub enum Closing {
    /// It goes out of sight; the process stays for the next photo.
    Hide,
    Exit,
}

/// What came of applying the setup card.
pub struct Outcome {
    /// The program was copied into place, or could not be; none where that was not asked for.
    pub install: Option<Result<(), String>>,
    pub autostart: Result<(), String>,
    /// Whether Windows took the default.
    pub default: Result<bool, String>,
}

/// What comes after applying the setup card.
#[derive(Clone, Copy, PartialEq, Eq, Structural, Debug)]
pub enum Applied {
    /// The installed copy takes over, on the same photo and at the same place.
    Relaunch,
    Closed,
    /// The card stays, and says what went wrong.
    Noted,
}

/// What the card says of an outcome: one note for each thing that went wrong.
#[verifier::opaque]
pub open spec fn notes(o: Outcome, asked_default: bool) -> Seq<Seq<char>> {
    (match o.install {
        Some(Err(e)) => seq!["install: "@ + e@],
        _ => seq![],
    }) + (match o.autostart {
        Err(e) => seq![e@],
        Ok(_) => seq![],
    }) + (match o.default {
        Ok(false) => if asked_default {
            seq!["Windows asks to confirm in Settings"@]
        } else {
            seq![]
        },
        Err(e) => seq![e@],
        Ok(true) => seq![],
    })
}

fn list_notes(o: &Outcome, asked_default: bool) -> (r: Vec<String>)
    ensures
        said(r@) == notes(*o, asked_default),
{
    proof {
        reveal(notes);
    }
    let mut v: Vec<String> = Vec::new();
    match &o.install {
        Some(Err(e)) => v.push(cat2("install: ", e.as_str())),
        _ => {},
    }
    match &o.autostart {
        Err(e) => v.push(e.as_str().to_owned()),
        Ok(_) => {},
    }
    match &o.default {
        Ok(taken) => {
            if !*taken && asked_default {
                v.push("Windows asks to confirm in Settings".to_owned());
            }
        },
        Err(e) => v.push(e.as_str().to_owned()),
    }
    assert(said(v@) =~= notes(*o, asked_default));
    v
}

/// What comes after an outcome.
#[verifier::opaque]
pub open spec fn judged(o: Outcome, asked_default: bool) -> Applied {
    if o.install is Some && o.install->0 is Ok {
        Applied::Relaunch
    } else if notes(o, asked_default).len() == 0 {
        Applied::Closed
    } else {
        Applied::Noted
    }
}

fn judge(o: &Outcome, asked_default: bool) -> (r: (Applied, String))
    ensures
        r.0 == judged(*o, asked_default),
        r.1@ == joined(notes(*o, asked_default), "; "@),
{
    proof {
        reveal(judged);
    }
    let list: Vec<String> = list_notes(o, asked_default);
    assert(list@.len() == notes(*o, asked_default).len());
    let text = join(&list, "; ");
    let installed: bool = match &o.install {
        Some(Ok(_)) => true,
        _ => false,
    };
    if installed {
        (Applied::Relaunch, text)
    } else if list.len() == 0 {
        (Applied::Closed, text)
    } else {
        (Applied::Noted, text)
    }
}

/// The controls once the setup card was applied.
#[verifier::opaque]
pub open spec fn ui_after(ui: Ui, what: Applied) -> Ui {
    match what {
        Applied::Relaunch => Ui { card: None, ..ui },
        Applied::Closed => Ui { card: None, dirty: true, ..ui },
        Applied::Noted => Ui {
            card: Some(Card { dirty: true, ..ui.card->0 }),
            dirty: true,
            ..ui
        },
    }
}

fn controls_after(ui: Ui, what: Applied) -> (r: Ui)
    requires
        ui.card is Some,
    ensures
        r == ui_after(ui, what),
{
    proof {
        reveal(ui_after);
    }
    match what {
        Applied::Relaunch => Ui { card: None, ..ui },
        Applied::Closed => Ui { card: None, dirty: true, ..ui },
        Applied::Noted => Ui {
            card: Some(Card { dirty: true, ..ui.card.unwrap() }),
            dirty: true,
            ..ui
        },
    }
}

/// The settings once the setup card was applied: whoever starts at login stays resident.
#[verifier::opaque]
pub open spec fn settings_after(cfg: Config, autostart: bool, what: Applied) -> Config {
    Config {
        resident: cfg.resident || autostart,
        setup_done: cfg.setup_done || what == Applied::Closed,
        ..cfg
    }
}

fn set_after(cfg: Config, autostart: bool, what: Applied) -> (r: Config)
    ensures
        r == settings_after(cfg, autostart, what),
{
    proof {
        reveal(settings_after);
    }
    Config {
        resident: cfg.resident || autostart,
        setup_done: cfg.setup_done || what == Applied::Closed,
        ..cfg
    }
}

/// A settings file: this program's own, or the installed copy's.
#[derive(Clone, Copy, PartialEq, Eq, Structural, Debug)]
pub enum Ini {
    Own,
    Installed,
}

/// A setting to store.
pub struct Line {
    pub ini: Ini,
    pub key: &'static str,
    pub value: String,
}

pub open spec fn line(ini: Ini, key: Seq<char>, value: Seq<char>) -> (Ini, Seq<char>, Seq<char>) {
    (ini, key, value)
}

pub open spec fn lines_said(v: Seq<Line>) -> Seq<(Ini, Seq<char>, Seq<char>)> {
    Seq::new(v.len(), |i: int| (v[i].ini, v[i].key@, v[i].value@))
}

/// What applying the setup card stores: that the viewer stays resident, where it was not; for the installed
/// copy that takes over the place of the window, and that it stays resident; else that the card was
/// answered.
pub open spec fn setup_stores(what: Applied, newly: bool, autostart: bool, place: Placement) -> Seq<
    (Ini, Seq<char>, Seq<char>),
> {
    (if newly {
        seq![line(Ini::Own, "resident"@, "true"@)]
    } else {
        seq![]
    }) + (if what == Applied::Relaunch {
        seq![line(Ini::Installed, "placement"@, place_text(place))] + (if autostart {
            seq![line(Ini::Installed, "resident"@, "true"@)]
        } else {
            seq![]
        })
    } else {
        seq![line(Ini::Own, "setup_done"@, "true"@)]
    })
}

/// The settings to store once the setup card was applied; `newly` is whether the viewer is to stay
/// resident and was not.
pub fn setup_lines(what: Applied, newly: bool, autostart: bool, place: Placement) -> (r: Vec<Line>)
    ensures
        lines_said(r@) == setup_stores(what, newly, autostart, place),
{
    let mut v: Vec<Line> = Vec::new();
    if newly {
        v.push(Line { ini: Ini::Own, key: "resident", value: "true".to_owned() });
    }
    if what == Applied::Relaunch {
        v.push(Line { ini: Ini::Installed, key: "placement", value: placement_text(place) });
        if autostart {
            v.push(Line { ini: Ini::Installed, key: "resident", value: "true".to_owned() });
        }
    } else {
        v.push(Line { ini: Ini::Own, key: "setup_done", value: "true".to_owned() });
    }
    assert(lines_said(v@) =~= setup_stores(what, newly, autostart, place));
    v
}

/// How the window comes to the front for a new file.
pub open spec fn showing(a: App) -> Showing {
    if !a.hidden {
        Showing::Focus
    } else if a.cloaked {
        Showing::Reveal
    } else {
        Showing::Show { maximized: a.restore_max }
    }
}

/// The viewer as its window comes to the front: under a cloak a frame is due first.
pub open spec fn brought(a: App) -> App {
    if !a.hidden {
        a
    } else {
        App {
            hidden: false,
            cloaked: false,
            ui: Ui { dirty: a.ui.dirty || a.cloaked, ..a.ui },
            ..a
        }
    }
}

/// The viewer out of sight, ready to be revealed.
pub open spec fn parked(a: App) -> App {
    App { hidden: true, cloaked: true, ..a }
}

impl App {
    /// Shown for a new file: the window comes back as it was.
    pub fn show(&mut self) -> (r: Showing)
        ensures
            r == showing(*old(self)),
            *final(self) == brought(*old(self)),
    {
        if !self.hidden {
            return Showing::Focus;
        }
        self.hidden = false;
        if self.cloaked {
            self.cloaked = false;
            self.ui.dirty = true;
            Showing::Reveal
        } else {
            Showing::Show { maximized: self.restore_max }
        }
    }

    /// The window is there: fullscreen where the settings say so, and drawn anew.
    pub fn shown(&mut self)
        ensures
            *final(self) == (App {
                ui: if old(self).cfg.window == WindowMode::Fullscreen {
                    full(old(self).ui, true)
                } else {
                    redrawn(old(self).ui)
                },
                ..*old(self)
            }),
    {
        if self.cfg.window == WindowMode::Fullscreen {
            self.ui.set_fullscreen(true);
        } else {
            self.ui.redraw();
        }
    }

    /// Out of sight, ready to be revealed.
    pub fn park(&mut self)
        ensures
            *final(self) == parked(*old(self)),
    {
        self.hidden = true;
        self.cloaked = true;
    }

    /// Hidden, with nothing to do until the next open: whether memory is given back.
    pub fn settle(&self) -> (trim: bool)
        ensures
            trim == self.cfg.trim_memory,
    {
        self.cfg.trim_memory
    }

    pub fn close(&self) -> (r: Closing)
        ensures
            r == (if self.cfg.resident {
                Closing::Hide
            } else {
                Closing::Exit
            }),
    {
        if self.cfg.resident {
            Closing::Hide
        } else {
            Closing::Exit
        }
    }

    /// Remember where the window is, for the next start: out of fullscreen first. Gives what the
    /// settings file is to say; nothing for a hidden window, which was remembered when it went.
    pub fn save_placement(&mut self, p: Placement) -> (r: Option<String>)
        ensures
            old(self).hidden ==> r is None && *final(self) == *old(self),
            !old(self).hidden ==> {
                &&& r is Some
                &&& r->0@ == place_text(p)
                &&& *final(self) == (App {
                    ui: full(old(self).ui, false),
                    restore_max: p.max,
                    cfg: Config { placement: Some(p), ..old(self).cfg },
                    ..*old(self)
                })
            },
    {
        if self.hidden {
            return None;
        }
        self.ui.set_fullscreen(false);
        self.restore_max = p.max;
        self.cfg.placement = Some(p);
        Some(placement_text(p))
    }

    /// Closed while resident: everything the photos held goes. Nothing of them is left to flash when
    /// the window is next shown: an empty frame is drawn first.
    pub fn let_go(&mut self) -> (gone: HashMap<u64, Slot>)
        requires
            old(self).wf(),
        ensures
            final(self).wf(),
            gone@ == old(self).store.cache@,
            final(self).nav.files@.len() == 0,
            final(self).nav.select is None,
            final(self).nav.generation == old(self).nav.generation,
            final(self).store.cache@ == Map::<u64, Slot>::empty(),
            final(self).store.keep@ == Seq::<u64>::empty(),
            final(self).tex.shown is None,
            forall|i: int| 0 <= i < IMAGE_SLOTS ==> #[trigger] final(self).tex.slots@[i] is None,
            final(self).pill_text@ == Seq::<char>::empty(),
            *final(self) == (App {
                nav: final(self).nav,
                store: final(self).store,
                tex: final(self).tex,
                pill_text: final(self).pill_text,
                ui: redrawn(Ui { card: None, ..old(self).ui }),
                error: None,
                ..*old(self)
            }),
    {
        self.nav.close();
        let gone = self.store.clear();
        self.tex.clear();
        self.ui.card = None;
        self.pill_text = String::new();
        self.error = None;
        self.ui.redraw();
        gone
    }

    /// Open the card; on the first start every box is ticked, later they show what is set.
    pub fn open_setup(&mut self, first: bool, installed: bool, autostart: bool, default: bool)
        ensures
            final(self).note@ == Seq::<char>::empty(),
            *final(self) == (App {
                ui: Ui {
                    card: Some(
                        Card {
                            install: if installed {
                                None
                            } else {
                                Some(first)
                            },
                            autostart: first || autostart,
                            default: first || default,
                            hot: None,
                            dirty: true,
                        },
                    ),
                    dirty: true,
                    ..old(self).ui
                },
                note: final(self).note,
                ..*old(self)
            }),
    {
        self.ui.card = Some(
            Card {
                install: if installed {
                    None
                } else {
                    Some(first)
                },
                autostart: first || autostart,
                default: first || default,
                hot: None,
                dirty: true,
            },
        );
        self.note = String::new();
        self.ui.dirty = true;
    }

    /// The card was answered; it does not come by itself again.
    pub fn close_setup(&mut self)
        ensures
            *final(self) == (App {
                ui: Ui { card: None, dirty: true, ..old(self).ui },
                cfg: Config { setup_done: true, ..old(self).cfg },
                ..*old(self)
            }),
    {
        self.ui.card = None;
        self.cfg.setup_done = true;
        self.ui.dirty = true;
    }

    /// The boxes of the card were applied, with this outcome. Autostart means resident: the process
    /// that starts at login is the one photos open in, and the settings are to say so where they did
    /// not.
    pub fn apply_setup(&mut self, o: Outcome) -> (r: (Applied, bool))
        requires
            old(self).ui.card is Some,
        ensures
            r.0 == judged(o, old(self).ui.card->0.default),
            r.1 == (old(self).ui.card->0.autostart && !old(self).cfg.resident),
            *final(self) == (App {
                cfg: settings_after(old(self).cfg, old(self).ui.card->0.autostart, r.0),
                ui: ui_after(old(self).ui, r.0),
                note: final(self).note,
                ..*old(self)
            }),
            final(self).note@ == (if r.0 == Applied::Noted {
                joined(notes(o, old(self).ui.card->0.default), "; "@)
            } else {
                old(self).note@
            }),
    {
        let card: Card = self.ui.card.unwrap();
        let resident: bool = card.autostart && !self.cfg.resident;
        let (what, text): (Applied, String) = judge(&o, card.default);
        self.cfg = set_after(self.cfg, card.autostart, what);
        self.ui = controls_after(self.ui, what);
        if what == Applied::Noted {
            self.note = text;
        }
        (what, resident)
    }

    /// Where the installed copy is to open: where this window is, or was when it was hidden.
    pub fn relaunch_place(&self, now: Placement) -> (r: Placement)
        ensures
            r == (if !self.hidden {
                now
            } else {
                match self.cfg.placement {
                    Some(p) => p,
                    None => Placement {
                        rect: Rect { left: 0, top: 0, right: 0, bottom: 0 },
                        max: true,
                    },
                }
            }),
    {
        if !self.hidden {
            now
        } else {
            match self.cfg.placement {
                Some(p) => p,
                None => Placement {
                    rect: Rect { left: 0, top: 0, right: 0, bottom: 0 },
                    max: true,
                },
            }
        }
    }
}

/// A viewer that was parked is revealed, and is then as it was, with a frame to draw; one that is there
/// already only comes to the front.
pub proof fn law_parked_is_revealed(a: App)
    ensures
        showing(parked(a)) == Showing::Reveal,
        brought(parked(a)) == (App { ui: Ui { dirty: true, ..a.ui }, hidden: false, cloaked: false, ..a }),
        showing(brought(a)) == Showing::Focus,
        brought(brought(a)) == brought(a),
{
}

/// The card says one thing for each that went wrong, in the order they were tried, and closes where
/// nothing did. An installed copy takes over whatever else came of it. What Windows wants confirmed is
/// said only where it was asked for.
pub proof fn law_setup_judged(o: Outcome, asked: bool)
    ensures
        ({
            let n = notes(o, asked);
            let install = o.install is Some && o.install->0 is Err;
            let confirm = o.default == Ok::<bool, String>(false) && asked;
            let bad = |b: bool|
                if b {
                    1int
                } else {
                    0
                };
            &&& n.len() == bad(install) + bad(o.autostart is Err) + bad(o.default is Err || confirm)
            &&& install ==> n[0] == "install: "@ + (o.install->0)->Err_0@
            &&& o.autostart is Err ==> n[bad(install)] == o.autostart->Err_0@
            &&& o.default is Err ==> n.last() == o.default->Err_0@
            &&& confirm ==> n.last() == "Windows asks to confirm in Settings"@
            &&& judged(o, asked) == Applied::Relaunch <==> o.install is Some && o.install->0 is Ok
            &&& judged(o, asked) == Applied::Closed <==> o.autostart is Ok && o.default is Ok && !confirm
                && o.install is None
        }),
{
    reveal(notes);
    reveal(judged);
}

/// After the card was applied it stays only where it has something to say; whoever starts at login stays
/// resident from then on, and it does not come by itself again once it closed. Nothing else is set.
pub proof fn law_setup_applied(ui: Ui, cfg: Config, autostart: bool, what: Applied)
    requires
        ui.card is Some,
    ensures
        ({
            let u = ui_after(ui, what);
            let c = settings_after(cfg, autostart, what);
            &&& u.card is Some <==> what == Applied::Noted
            &&& what != Applied::Relaunch ==> u.dirty
            &&& what == Applied::Noted ==> u.card->0.autostart == ui.card->0.autostart
                && u.card->0.default == ui.card->0.default && u.card->0.install == ui.card->0.install
                && u.card->0.dirty
            &&& u == (Ui { card: u.card, dirty: u.dirty, ..ui })
            &&& c.resident <==> cfg.resident || autostart
            &&& c.setup_done <==> cfg.setup_done || what == Applied::Closed
            &&& c == (Config { resident: c.resident, setup_done: c.setup_done, ..cfg })
        }),
{
    reveal(ui_after);
    reveal(settings_after);
}

/// What applying the card stores: in our own settings that we stay resident, where that is new; for an
/// installed copy its place and whether it stays; and that the card was answered, where we go on.
pub proof fn law_setup_stored(what: Applied, newly: bool, autostart: bool, place: Placement)
    ensures
        ({
            let s = setup_stores(what, newly, autostart, place);
            let over = what == Applied::Relaunch;
            &&& newly ==> s[0] == (Ini::Own, "resident"@, "true"@)
            &&& over && autostart ==> s.last() == (Ini::Installed, "resident"@, "true"@)
            &&& over ==> s.contains((Ini::Installed, "placement"@, place_text(place)))
            &&& !over ==> s.last() == (Ini::Own, "setup_done"@, "true"@)
            &&& s.len() == (if newly {
                2int
            } else {
                1
            }) + (if over && autostart {
                1int
            } else {
                0
            })
        }),
{
    let s = setup_stores(what, newly, autostart, place);
    let at: int = if newly {
        1
    } else {
        0
    };
    if what == Applied::Relaunch {
        assert(s[at] == (Ini::Installed, "placement"@, place_text(place)));
    }
}

/// A window that is there only comes to the front; one that was hidden and not parked is shown as it was
/// left.
pub proof fn law_shown_as_left(a: App)
    ensures
        !a.hidden ==> showing(a) == Showing::Focus && brought(a) == a,
        a.hidden && a.cloaked ==> showing(a) == Showing::Reveal && brought(a).ui.dirty,
        a.hidden && !a.cloaked ==> showing(a) == (Showing::Show { maximized: a.restore_max }) && brought(
            a,
        ).ui == a.ui,
        !brought(a).hidden,
        a.hidden ==> !brought(a).cloaked,
{
}

} // verus!
