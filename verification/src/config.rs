//! The settings file next to the program: `key = value`, `#` comments. Written with the defaults
//! on the first run, so the knobs are there to edit.

use crate::geom::{Placement, Rect};
use crate::text::{
    chars_of, decimal, find, first_of, hex, integer, is_word, law_hex_returns, lemma_decimal_chars, lemma_decimal_number,
    lemma_first_is, lemma_first_of, lemma_first_of_is, lines, lines_of, parse_integer, parse_unsigned, parts, same,
    signed_decimal, signed_decimal_of, sixteens, split, string_of, texts, trim, trim_back, trim_front, trimmed,
    unsigned, white, without_cr,
};
use vstd::prelude::*;

verus! {

#[derive(Clone, Copy, PartialEq, Eq, Structural, Debug)]
pub enum WindowMode {
    Normal,
    Maximized,
    Fullscreen,
}

#[derive(Clone, Copy, PartialEq, Eq, Structural, Debug)]
pub struct Rgb {
    pub r: u8,
    pub g: u8,
    pub b: u8,
}

#[derive(Clone, Copy, PartialEq, Eq, Structural, Debug)]
pub struct Config {
    pub window: WindowMode,
    /// Wheel zooms (true) or flips images (false; Ctrl+wheel then zooms).
    pub wheel_zoom: bool,
    /// Past the last image comes the first.
    pub wrap: bool,
    /// Stretch images smaller than the window up to it on fit.
    pub upscale_small: bool,
    /// Keep zoom and pan when flipping, for comparing shots of one scene.
    pub keep_zoom: bool,
    /// None where the file names no colour: a dark grey.
    pub background: Option<Rgb>,
    pub info: bool,
    pub prefetch_ahead: usize,
    pub prefetch_behind: usize,
    pub prefer_integrated: bool,
    /// Load implicit Vulkan layers (overlays). Each one is loaded and initialised at start; off by
    /// default because that is where most start-up time goes.
    pub implicit_layers: bool,
    /// Stay in memory after the window is closed (hidden, working set trimmed): the next photo
    /// opens in the running process, with Vulkan already up.
    pub resident: bool,
    /// Give memory back while hidden, at the price of paging it in on the next open.
    pub trim_memory: bool,
    /// The setup card was answered (applied or put off); it does not come by itself again.
    pub setup_done: bool,
    /// Where the window was when it was last closed.
    pub placement: Option<Placement>,
}

pub const DEFAULT: &'static str =
    "# Glint settings. Delete this file to get the defaults back.\n\n# normal | maximized | fullscreen\nwindow = maximized\n# zoom | navigate   (with navigate, Ctrl+wheel zooms)\nwheel = zoom\n# after the last image comes the first\nwrap = true\n# stretch small images up to the window on fit\nupscale_small = false\n# keep zoom/pan when switching images (compare series)\nkeep_zoom = false\n# background, hex RRGGBB\nbackground = 1b1b1b\n# info bar at the bottom (I toggles)\ninfo = true\n# how many images to decode ahead of / behind the current one\nprefetch_ahead = 4\nprefetch_behind = 2\n# discrete | integrated\ngpu = discrete\n# Vulkan implicit layers (OBS/Steam/RTSS overlays). false = faster start\nimplicit_layers = false\n# stay in memory when closed (a few MB); the next photo opens instantly. --register adds autostart\nresident = true\n# while hidden: give memory back (~2 MB, opening pages it back in) or keep it (faster open)\ntrim_memory = true\n";

/// The settings of an empty file.
pub open spec fn initial() -> Config {
    Config {
        window: WindowMode::Maximized,
        wheel_zoom: true,
        wrap: true,
        upscale_small: false,
        keep_zoom: false,
        background: None,
        info: true,
        prefetch_ahead: 4,
        prefetch_behind: 2,
        prefer_integrated: false,
        implicit_layers: false,
        resident: true,
        trim_memory: true,
        setup_done: false,
        placement: None,
    }
}

/// The key and the value that a line sets. What follows a `#` is a comment.
pub open spec fn entry_of(line: Seq<char>) -> Option<(Seq<char>, Seq<char>)> {
    let body = line.take(first_of(line, '#') as int);
    let i = first_of(body, '=') as int;
    if i < body.len() {
        Some((trimmed(body.take(i)), trimmed(body.skip(i + 1))))
    } else {
        None
    }
}

/// The words for yes.
#[verifier::opaque]
pub open spec fn yes(v: Seq<char>) -> bool {
    v == "true"@ || v == "1"@ || v == "yes"@ || v == "on"@
}

/// A colour in hex: the low three bytes of the number, red first.
#[verifier::opaque]
pub open spec fn colour(v: Seq<char>) -> Option<Rgb> {
    match unsigned(v, 16, u32::MAX as nat) {
        Some(x) => Some(
            Rgb {
                r: (x / 0x1_0000 % 256) as u8,
                g: (x / 0x100 % 256) as u8,
                b: (x % 256) as u8,
            },
        ),
        None => None,
    }
}

/// How many images to decode: `other` where the value is no number, 32 at most.
#[verifier::opaque]
pub open spec fn depth(v: Seq<char>, other: usize) -> usize {
    match unsigned(v, 10, usize::MAX as nat) {
        Some(n) => if n < 32 {
            n as usize
        } else {
            32
        },
        None => other,
    }
}

/// The integers among the parts.
pub open spec fn integers(p: Seq<Seq<char>>) -> Seq<i32>
    decreases p.len(),
{
    if p.len() == 0 {
        seq![]
    } else {
        match integer(trimmed(p.last())) {
            Some(n) => integers(p.drop_last()).push(n as i32),
            None => integers(p.drop_last()),
        }
    }
}

/// Five integers with commas between them: a rectangle, and whether maximised.
#[verifier::opaque]
pub open spec fn place(v: Seq<char>) -> Option<Placement> {
    let n = integers(parts(v, ','));
    if n.len() == 5 {
        Some(
            Placement {
                rect: Rect { left: n[0], top: n[1], right: n[2], bottom: n[3] },
                max: n[4] != 0,
            },
        )
    } else {
        None
    }
}

/// The keys there are.
#[derive(Clone, Copy, PartialEq, Eq, Structural)]
pub enum Knob {
    Window,
    Wheel,
    Wrap,
    UpscaleSmall,
    KeepZoom,
    Info,
    Background,
    PrefetchAhead,
    PrefetchBehind,
    Gpu,
    ImplicitLayers,
    Resident,
    TrimMemory,
    SetupDone,
    Placement,
    Unknown,
}

/// The knob that a key names.
#[verifier::opaque]
pub open spec fn knob(k: Seq<char>) -> Knob {
    if k == "window"@ {
        Knob::Window
    } else if k == "wheel"@ {
        Knob::Wheel
    } else if k == "wrap"@ {
        Knob::Wrap
    } else if k == "upscale_small"@ {
        Knob::UpscaleSmall
    } else if k == "keep_zoom"@ {
        Knob::KeepZoom
    } else if k == "info"@ {
        Knob::Info
    } else if k == "background"@ {
        Knob::Background
    } else if k == "prefetch_ahead"@ {
        Knob::PrefetchAhead
    } else if k == "prefetch_behind"@ {
        Knob::PrefetchBehind
    } else if k == "gpu"@ {
        Knob::Gpu
    } else if k == "implicit_layers"@ {
        Knob::ImplicitLayers
    } else if k == "resident"@ {
        Knob::Resident
    } else if k == "trim_memory"@ {
        Knob::TrimMemory
    } else if k == "setup_done"@ {
        Knob::SetupDone
    } else if k == "placement"@ {
        Knob::Placement
    } else {
        Knob::Unknown
    }
}

/// The settings after `key = value`.
pub open spec fn applied(c: Config, k: Seq<char>, v: Seq<char>) -> Config {
    turned(c, knob(k), v)
}

/// The settings after a knob was turned to a value.
#[verifier::opaque]
pub open spec fn turned(c: Config, k: Knob, v: Seq<char>) -> Config {
    match k {
        Knob::Window => Config {
            window: if v == "normal"@ {
                WindowMode::Normal
            } else if v == "fullscreen"@ {
                WindowMode::Fullscreen
            } else {
                WindowMode::Maximized
            },
            ..c
        },
        Knob::Wheel => Config { wheel_zoom: v != "navigate"@, ..c },
        Knob::Wrap => Config { wrap: yes(v), ..c },
        Knob::UpscaleSmall => Config { upscale_small: yes(v), ..c },
        Knob::KeepZoom => Config { keep_zoom: yes(v), ..c },
        Knob::Info => Config { info: yes(v), ..c },
        Knob::Background => Config {
            background: if colour(v) is Some {
                colour(v)
            } else {
                c.background
            },
            ..c
        },
        Knob::PrefetchAhead => Config { prefetch_ahead: depth(v, 4), ..c },
        Knob::PrefetchBehind => Config { prefetch_behind: depth(v, 2), ..c },
        Knob::Gpu => Config { prefer_integrated: v == "integrated"@, ..c },
        Knob::ImplicitLayers => Config { implicit_layers: yes(v), ..c },
        Knob::Resident => Config { resident: yes(v), ..c },
        Knob::TrimMemory => Config { trim_memory: yes(v), ..c },
        Knob::SetupDone => Config { setup_done: yes(v), ..c },
        Knob::Placement => Config {
            placement: if place(v) is Some {
                place(v)
            } else {
                c.placement
            },
            ..c
        },
        Knob::Unknown => c,
    }
}

/// The settings after the lines, one after another.
pub open spec fn read(c: Config, l: Seq<Seq<char>>) -> Config
    decreases l.len(),
{
    if l.len() == 0 {
        c
    } else {
        let before = read(c, l.drop_last());
        match entry_of(l.last()) {
            Some(e) => applied(before, e.0, e.1),
            None => before,
        }
    }
}

/// The settings that a file holds.
pub open spec fn settings(text: Seq<char>) -> Config {
    read(initial(), lines_of(text))
}

fn entry(line: &[char]) -> (r: Option<(&[char], &[char])>)
    ensures
        r matches Some(e) ==> entry_of(line@) == Some((e.0@, e.1@)),
        r is None ==> entry_of(line@) is None,
{
    let h: usize = find(line, '#');
    let body = &line[0..h];
    assert(body@ =~= line@.take(h as int));
    let n: usize = body.len();
    let i: usize = find(body, '=');
    if i < n {
        let k = &body[0..i];
        let v = &body[i + 1..n];
        assert(k@ =~= body@.take(i as int));
        assert(v@ =~= body@.skip(i + 1));
        Some((trim(k), trim(v)))
    } else {
        None
    }
}

fn is_yes(v: &[char]) -> (r: bool)
    ensures
        r == yes(v@),
{
    proof {
        reveal(yes);
    }
    is_word(v, "true") || is_word(v, "1") || is_word(v, "yes") || is_word(v, "on")
}

fn read_colour(v: &[char]) -> (r: Option<Rgb>)
    ensures
        r == colour(v@),
{
    proof {
        reveal(colour);
    }
    match parse_unsigned(v, 16, u32::MAX as u64) {
        Some(x) => Some(
            Rgb {
                r: (x / 0x1_0000 % 256) as u8,
                g: (x / 0x100 % 256) as u8,
                b: (x % 256) as u8,
            },
        ),
        None => None,
    }
}

fn read_depth(v: &[char], other: usize) -> (r: usize)
    ensures
        r == depth(v@, other),
{
    proof {
        reveal(depth);
    }
    match parse_unsigned(v, 10, usize::MAX as u64) {
        Some(n) => if n < 32 {
            n as usize
        } else {
            32
        },
        None => other,
    }
}

fn read_place(v: &[char]) -> (r: Option<Placement>)
    ensures
        r == place(v@),
{
    proof {
        reveal(place);
    }
    let p = split(v, ',');
    let mut n: Vec<i32> = Vec::new();
    let len: usize = p.len();
    assert(texts(p@).take(0) =~= seq![]);
    for i in 0..len
        invariant
            len == p@.len(),
            n@ == integers(texts(p@).take(i as int)),
    {
        let ghost t = texts(p@).take(i + 1);
        assert(t.drop_last() =~= texts(p@).take(i as int));
        assert(t.last() == p@[i as int]@);
        match parse_integer(trim(p[i].as_slice())) {
            Some(x) => n.push(x),
            None => {},
        }
    }
    assert(texts(p@).take(len as int) =~= texts(p@));
    if n.len() == 5 {
        Some(
            Placement {
                rect: Rect { left: n[0], top: n[1], right: n[2], bottom: n[3] },
                max: n[4] != 0,
            },
        )
    } else {
        None
    }
}

fn knob_of(k: &[char]) -> (r: Knob)
    ensures
        r == knob(k@),
{
    proof {
        reveal(knob);
    }
    if is_word(k, "window") {
        Knob::Window
    } else if is_word(k, "wheel") {
        Knob::Wheel
    } else if is_word(k, "wrap") {
        Knob::Wrap
    } else if is_word(k, "upscale_small") {
        Knob::UpscaleSmall
    } else if is_word(k, "keep_zoom") {
        Knob::KeepZoom
    } else if is_word(k, "info") {
        Knob::Info
    } else if is_word(k, "background") {
        Knob::Background
    } else if is_word(k, "prefetch_ahead") {
        Knob::PrefetchAhead
    } else if is_word(k, "prefetch_behind") {
        Knob::PrefetchBehind
    } else if is_word(k, "gpu") {
        Knob::Gpu
    } else if is_word(k, "implicit_layers") {
        Knob::ImplicitLayers
    } else if is_word(k, "resident") {
        Knob::Resident
    } else if is_word(k, "trim_memory") {
        Knob::TrimMemory
    } else if is_word(k, "setup_done") {
        Knob::SetupDone
    } else if is_word(k, "placement") {
        Knob::Placement
    } else {
        Knob::Unknown
    }
}

fn apply(c: Config, k: &[char], v: &[char]) -> (r: Config)
    ensures
        r == applied(c, k@, v@),
{
    proof {
        reveal(turned);
    }
    match knob_of(k) {
        Knob::Window => Config {
            window: if is_word(v, "normal") {
                WindowMode::Normal
            } else if is_word(v, "fullscreen") {
                WindowMode::Fullscreen
            } else {
                WindowMode::Maximized
            },
            ..c
        },
        Knob::Wheel => Config { wheel_zoom: !is_word(v, "navigate"), ..c },
        Knob::Wrap => Config { wrap: is_yes(v), ..c },
        Knob::UpscaleSmall => Config { upscale_small: is_yes(v), ..c },
        Knob::KeepZoom => Config { keep_zoom: is_yes(v), ..c },
        Knob::Info => Config { info: is_yes(v), ..c },
        Knob::Background => match read_colour(v) {
            Some(x) => Config { background: Some(x), ..c },
            None => c,
        },
        Knob::PrefetchAhead => Config { prefetch_ahead: read_depth(v, 4), ..c },
        Knob::PrefetchBehind => Config { prefetch_behind: read_depth(v, 2), ..c },
        Knob::Gpu => Config { prefer_integrated: is_word(v, "integrated"), ..c },
        Knob::ImplicitLayers => Config { implicit_layers: is_yes(v), ..c },
        Knob::Resident => Config { resident: is_yes(v), ..c },
        Knob::TrimMemory => Config { trim_memory: is_yes(v), ..c },
        Knob::SetupDone => Config { setup_done: is_yes(v), ..c },
        Knob::Placement => match read_place(v) {
            Some(x) => Config { placement: Some(x), ..c },
            None => c,
        },
        Knob::Unknown => c,
    }
}

impl Config {
    /// The settings of a file, and whether it is to be written with the defaults first: it could
    /// not be read.
    pub fn load(file: Option<&str>) -> (r: (Config, bool))
        ensures
            r.0 == settings(
                match file {
                    Some(t) => t@,
                    None => DEFAULT@,
                },
            ),
            r.1 == (file is None),
    {
        let text: &str = match file {
            Some(t) => t,
            None => DEFAULT,
        };
        let chars = chars_of(text);
        let l = lines(chars.as_slice());
        let mut c = Config {
            window: WindowMode::Maximized,
            wheel_zoom: true,
            wrap: true,
            upscale_small: false,
            keep_zoom: false,
            background: None,
            info: true,
            prefetch_ahead: 4,
            prefetch_behind: 2,
            prefer_integrated: false,
            implicit_layers: false,
            resident: true,
            trim_memory: true,
            setup_done: false,
            placement: None,
        };
        let n: usize = l.len();
        assert(texts(l@).take(0) =~= seq![]);
        for i in 0..n
            invariant
                n == l@.len(),
                c == read(initial(), texts(l@).take(i as int)),
        {
            let ghost t = texts(l@).take(i + 1);
            assert(t.drop_last() =~= texts(l@).take(i as int));
            assert(t.last() == l@[i as int]@);
            match entry(l[i].as_slice()) {
                Some(e) => c = apply(c, e.0, e.1),
                None => {},
            }
        }
        assert(texts(l@).take(n as int) =~= texts(l@));
        (c, file.is_none())
    }

    /// The background as the system takes a colour, blue highest, for what is shown before the
    /// first frame.
    pub fn colorref(&self) -> (r: u32)
        ensures
            self.background matches Some(c) ==> r == c.r + 0x100 * c.g + 0x1_0000 * c.b,
            self.background is None ==> r == 0x1b1b1b,
    {
        match self.background {
            Some(c) => c.r as u32 + 0x100 * c.g as u32 + 0x1_0000 * c.b as u32,
            None => 0x1b1b1b,
        }
    }
}

/// The line sets this key.
pub open spec fn sets(line: Seq<char>, key: Seq<char>) -> bool {
    let i = first_of(line, '=') as int;
    i < line.len() && trimmed(line.take(i)) == key
}

pub open spec fn setting(key: Seq<char>, value: Seq<char>) -> Seq<char> {
    key + " = "@ + value
}

/// The lines with every one that sets the key replaced.
pub open spec fn replaced(l: Seq<Seq<char>>, key: Seq<char>, value: Seq<char>) -> Seq<Seq<char>> {
    l.map_values(
        |x: Seq<char>|
            if sets(x, key) {
                setting(key, value)
            } else {
                x
            },
    )
}

pub open spec fn any_sets(l: Seq<Seq<char>>, key: Seq<char>) -> bool {
    exists|i: int| 0 <= i < l.len() && sets(#[trigger] l[i], key)
}

/// A line and what ends it: a newline, a carriage return and a newline, or nothing.
pub open spec fn whole_lines(s: Seq<char>) -> Seq<(Seq<char>, Seq<char>)>
    decreases s.len(),
{
    let i = first_of(s, '\n') as int;
    if s.len() == 0 {
        seq![]
    } else if i >= s.len() {
        seq![(s, seq![])]
    } else {
        seq![(without_cr(s.take(i)), line_end(s.take(i)))] + whole_lines(s.skip(i + 1))
    }
}

/// What ends a line whose newline comes after this.
pub open spec fn line_end(t: Seq<char>) -> Seq<char> {
    if t.len() > 0 && t.last() == '\r' {
        seq!['\r', '\n']
    } else {
        seq!['\n']
    }
}

/// The lines with their ends, one after another.
pub open spec fn glued(l: Seq<(Seq<char>, Seq<char>)>) -> Seq<char>
    decreases l.len(),
{
    if l.len() == 0 {
        seq![]
    } else {
        l[0].0 + l[0].1 + glued(l.skip(1))
    }
}

/// The lines without their ends.
pub open spec fn bare(l: Seq<(Seq<char>, Seq<char>)>) -> Seq<Seq<char>> {
    l.map_values(|p: (Seq<char>, Seq<char>)| p.0)
}

/// How the lines of a text end: as its first one does.
pub open spec fn own_end(s: Seq<char>) -> Seq<char> {
    if first_of(s, '\n') < s.len() {
        line_end(s.take(first_of(s, '\n') as int))
    } else {
        seq!['\n']
    }
}

/// What a text lacks for its last line to be ended.
pub open spec fn lacking(s: Seq<char>) -> Seq<char> {
    if s.len() == 0 || s.last() == '\n' {
        seq![]
    } else if s.last() == '\r' {
        seq!['\n']
    } else {
        own_end(s)
    }
}

/// The text with its last line ended.
pub open spec fn ended(s: Seq<char>) -> Seq<char> {
    s + lacking(s)
}

/// The lines with every one that sets the key replaced, each with its own end.
pub open spec fn relined(l: Seq<(Seq<char>, Seq<char>)>, key: Seq<char>, value: Seq<char>) -> Seq<
    (Seq<char>, Seq<char>),
> {
    l.map_values(
        |p: (Seq<char>, Seq<char>)|
            if sets(p.0, key) {
                (setting(key, value), p.1)
            } else {
                p
            },
    )
}

/// The lines of a file in which one key was set: every other line is as the user wrote it, its end
/// too, and a key that was not there comes last, on a line that ends as the file's own do.
pub open spec fn stored_lines(s: Seq<char>, key: Seq<char>, value: Seq<char>) -> Seq<
    (Seq<char>, Seq<char>),
> {
    let l = whole_lines(ended(s));
    if any_sets(bare(l), key) {
        relined(l, key, value)
    } else {
        l.push((setting(key, value), own_end(s)))
    }
}

/// A file in which one key was set.
pub open spec fn stored(s: Seq<char>, key: Seq<char>, value: Seq<char>) -> Seq<char> {
    glued(stored_lines(s, key, value))
}

proof fn lemma_glued_push(l: Seq<(Seq<char>, Seq<char>)>, p: (Seq<char>, Seq<char>))
    ensures
        glued(l.push(p)) == glued(l) + p.0 + p.1,
    decreases l.len(),
{
    let m = l.push(p);
    reveal_with_fuel(glued, 2);
    if l.len() == 0 {
        assert(m.skip(1) =~= seq![]);
        assert(glued(m) =~= glued(l) + p.0 + p.1);
    } else {
        lemma_glued_push(l.skip(1), p);
        assert(m.skip(1) =~= l.skip(1).push(p));
        assert(glued(m) =~= glued(l) + p.0 + p.1);
    }
}

/// The text whose last line is ended, and how its lines end.
fn end_last(chars: Vec<char>) -> (r: (Vec<char>, bool))
    ensures
        r.0@ == ended(chars@),
        own_end(chars@) == (if r.1 {
            seq!['\r', '\n']
        } else {
            seq!['\n']
        }),
{
    let n: usize = chars.len();
    let i: usize = find(chars.as_slice(), '\n');
    let cr: bool = i < n && i > 0 && chars[i - 1] == '\r';
    let ghost s = chars@;
    let mut out = chars;
    if n > 0 && out[n - 1] != '\n' {
        if cr && out[n - 1] != '\r' {
            out.push('\r');
        }
        out.push('\n');
    }
    assert(out@ =~= ended(s));
    (out, cr)
}

/// Put the first line of a text out, replaced where it sets the key, with its own end: how long it
/// was, and whether it was replaced.
fn put_line(out: &mut String, rest: &[char], k: &[char], new: &str, Ghost(value): Ghost<Seq<char>>) -> (r:
    (usize, bool))
    requires
        rest@.len() > 0,
        rest@.last() == '\n',
        new@ == setting(k@, value),
    ensures
        0 < r.0 <= rest@.len(),
        ({
            let tail = whole_lines(rest@.skip(r.0 as int));
            &&& final(out)@ + glued(relined(tail, k@, value)) == old(out)@ + glued(
                relined(whole_lines(rest@), k@, value),
            )
            &&& any_sets(bare(whole_lines(rest@)), k@) == (r.1 || any_sets(bare(tail), k@))
        }),
{
    let i: usize = find(rest, '\n');
    proof {
        lemma_first_of_is(rest@, '\n');
    }
    let cr: bool = i > 0 && rest[i - 1] == '\r';
    let e: usize = if cr {
        i - 1
    } else {
        i
    };
    let line = &rest[0..e];
    assert(line@ =~= without_cr(rest@.take(i as int)));
    let eq: usize = find(line, '=');
    let hit: bool = if eq < line.len() {
        let name = &line[0..eq];
        assert(name@ =~= line@.take(eq as int));
        same(trim(name), k)
    } else {
        false
    };
    assert(hit == sets(line@, k@));
    let ghost p = (line@, line_end(rest@.take(i as int)));
    let ghost tail = whole_lines(rest@.skip(i + 1));
    assert(whole_lines(rest@) == seq![p] + tail);
    proof {
        lemma_first_line(p, tail, k@, value);
    }
    if hit {
        out.append(new);
    } else {
        let s = string_of(line);
        out.append(s.as_str());
    }
    if cr {
        out.push('\r');
    }
    out.push('\n');
    let ghost put = if hit {
        setting(k@, value)
    } else {
        line@
    };
    assert(out@ =~= old(out)@ + put + p.1);
    assert(out@ + glued(relined(tail, k@, value)) =~= old(out)@ + (put + p.1 + glued(
        relined(tail, k@, value),
    )));
    (i + 1, hit)
}

/// Set one key in the file, keeping everything else as the user wrote it, but that its last line is
/// ended. A file that could not be read starts from the defaults.
pub fn store(file: Option<&str>, key: &str, value: &str) -> (r: String)
    ensures
        r@ == stored(
            match file {
                Some(t) => t@,
                None => DEFAULT@,
            },
            key@,
            value@,
        ),
{
    let text: &str = match file {
        Some(t) => t,
        None => DEFAULT,
    };
    let (all, cr): (Vec<char>, bool) = end_last(chars_of(text));
    let k = chars_of(key);
    let mut new = key.to_owned();
    new.append(" = ");
    new.append(value);
    let mut found = false;
    let mut out = String::new();
    let n: usize = all.len();
    let mut at: usize = 0;
    let ghost l = whole_lines(all@);
    let ghost to = glued(relined(l, key@, value@));
    assert(all@.skip(0) =~= all@);
    assert(out@ + to =~= to);
    while at < n
        invariant
            n == all@.len(),
            at <= n,
            n > 0 ==> all@.last() == '\n',
            k@ == key@,
            new@ == setting(key@, value@),
            l == whole_lines(all@),
            to == glued(relined(l, key@, value@)),
            out@ + glued(relined(whole_lines(all@.skip(at as int)), key@, value@)) == to,
            any_sets(bare(l), key@) == (found || any_sets(
                bare(whole_lines(all@.skip(at as int))),
                key@,
            )),
        decreases n - at,
    {
        let rest = &all.as_slice()[at..n];
        assert(rest@ =~= all@.skip(at as int));
        assert(rest@.last() == '\n');
        let (len, hit): (usize, bool) = put_line(&mut out, rest, k.as_slice(), new.as_str(), Ghost(value@));
        assert(rest@.skip(len as int) =~= all@.skip(at + len));
        found = found || hit;
        at = at + len;
    }
    assert(all@.skip(n as int) =~= seq![]);
    assert(relined(whole_lines(seq![]), key@, value@) =~= seq![]);
    assert(bare(whole_lines(seq![])) =~= seq![]);
    assert(out@ =~= to);
    if !found {
        assert(relined(l, key@, value@) =~= l) by {
            assert forall|i: int| 0 <= i < l.len() implies !sets(#[trigger] l[i].0, key@) by {
                assert(bare(l)[i] == l[i].0);
            }
        }
        proof {
            lemma_glued_push(l, (setting(key@, value@), own_end(text@)));
        }
        let ghost before = out@;
        out.append(new.as_str());
        if cr {
            out.push('\r');
        }
        out.push('\n');
        assert(out@ =~= before + setting(key@, value@) + own_end(text@));
    }
    out
}

proof fn lemma_first_line(
    p: (Seq<char>, Seq<char>),
    tail: Seq<(Seq<char>, Seq<char>)>,
    key: Seq<char>,
    value: Seq<char>,
)
    ensures
        glued(relined(seq![p] + tail, key, value)) == (if sets(p.0, key) {
            setting(key, value)
        } else {
            p.0
        }) + p.1 + glued(relined(tail, key, value)),
        any_sets(bare(seq![p] + tail), key) == (sets(p.0, key) || any_sets(bare(tail), key)),
{
    let l = seq![p] + tail;
    assert(relined(l, key, value).skip(1) =~= relined(tail, key, value));
    assert(bare(l)[0] == p.0);
    if any_sets(bare(tail), key) {
        let i = choose|i: int| 0 <= i < bare(tail).len() && sets(#[trigger] bare(tail)[i], key);
        assert(bare(l)[i + 1] == bare(tail)[i]);
    }
    if any_sets(bare(l), key) {
        let i = choose|i: int| 0 <= i < bare(l).len() && sets(#[trigger] bare(l)[i], key);
        if i > 0 {
            assert(bare(tail)[i - 1] == bare(l)[i]);
        }
    }
}

/// The text of a placement in the file.
pub open spec fn place_text(p: Placement) -> Seq<char> {
    signed_decimal(p.rect.left as int) + seq![','] + signed_decimal(p.rect.top as int) + seq![',']
        + signed_decimal(p.rect.right as int) + seq![','] + signed_decimal(p.rect.bottom as int)
        + seq![','] + seq![if p.max { '1' } else { '0' }]
}

pub fn placement_text(p: Placement) -> (r: String)
    ensures
        r@ == place_text(p),
{
    let mut s = signed_decimal_of(p.rect.left);
    s.push(',');
    let t = signed_decimal_of(p.rect.top);
    s.append(t.as_str());
    s.push(',');
    let t = signed_decimal_of(p.rect.right);
    s.append(t.as_str());
    s.push(',');
    let t = signed_decimal_of(p.rect.bottom);
    s.append(t.as_str());
    s.push(',');
    s.push(
        if p.max {
            '1'
        } else {
            '0'
        },
    );
    assert(s@ =~= place_text(p));
    s
}

/// The value that counts for a key: the last one.
pub open spec fn value_of(l: Seq<Seq<char>>, k: Seq<char>) -> Option<Seq<char>>
    decreases l.len(),
{
    if l.len() == 0 {
        None
    } else {
        match entry_of(l.last()) {
            Some(e) if e.0 == k => Some(e.1),
            _ => value_of(l.drop_last(), k),
        }
    }
}

/// Text that can stand on a line as it is: no newline, no comment, no white space around it.
pub open spec fn plain(s: Seq<char>) -> bool {
    &&& !s.contains('\n')
    &&& !s.contains('#')
    &&& trimmed(s) == s
}

/// A line with its end that comes apart again as it was put together.
pub open spec fn firm(p: (Seq<char>, Seq<char>)) -> bool {
    &&& !p.0.contains('\n')
    &&& p.1 == seq!['\r', '\n'] || (p.1 == seq!['\n'] && (p.0.len() == 0 || p.0.last() != '\r'))
}

proof fn lemma_whole_texts(s: Seq<char>)
    ensures
        bare(whole_lines(s)) == lines_of(s),
    decreases s.len(),
{
    lemma_first_of_is(s, '\n');
    let i = first_of(s, '\n') as int;
    if s.len() > 0 && i < s.len() {
        lemma_whole_texts(s.skip(i + 1));
        assert(bare(whole_lines(s)) =~= lines_of(s));
    } else {
        assert(bare(whole_lines(s)) =~= lines_of(s));
    }
}

/// The lines of a text and their ends make up the text.
pub proof fn law_lines_make_the_text(s: Seq<char>)
    ensures
        glued(whole_lines(s)) == s,
    decreases s.len(),
{
    lemma_first_of_is(s, '\n');
    let i = first_of(s, '\n') as int;
    let l = whole_lines(s);
    reveal_with_fuel(glued, 2);
    if s.len() > 0 {
        if i < s.len() {
            law_lines_make_the_text(s.skip(i + 1));
            assert(l.skip(1) =~= whole_lines(s.skip(i + 1)));
            assert(glued(l) =~= s);
        } else {
            assert(l.skip(1) =~= seq![]);
            assert(glued(l) =~= s);
        }
    }
}

/// Lines put together come apart as they were.
pub proof fn law_lines_return(l: Seq<(Seq<char>, Seq<char>)>)
    requires
        forall|i: int| 0 <= i < l.len() ==> firm(#[trigger] l[i]),
    ensures
        whole_lines(glued(l)) == l,
    decreases l.len(),
{
    if l.len() > 0 {
        let s = glued(l);
        let t = l[0].0;
        let cr = l[0].1 == seq!['\r', '\n'];
        assert(firm(l[0]));
        let n: int = if cr {
            (t.len() + 1) as int
        } else {
            t.len() as int
        };
        assert(s[n] == '\n');
        assert forall|j: int| 0 <= j < n implies #[trigger] s[j] != '\n' by {
            if j < t.len() {
                assert(s[j] == t[j]);
                assert(t.contains(t[j]));
            }
        }
        lemma_first_of(s, '\n', n);
        if cr {
            assert(s.take(n) =~= t.push('\r'));
            assert(t.push('\r').drop_last() =~= t);
        } else {
            assert(s.take(n) =~= t);
        }
        assert(s.skip(n + 1) =~= glued(l.skip(1)));
        assert forall|i: int| 0 <= i < l.skip(1).len() implies firm(#[trigger] l.skip(1)[i]) by {
            assert(l.skip(1)[i] == l[i + 1]);
        }
        law_lines_return(l.skip(1));
        assert(whole_lines(s) =~= l);
    } else {
        assert(whole_lines(glued(l)) =~= l);
    }
}

proof fn lemma_whole_firm(s: Seq<char>)
    requires
        s.len() == 0 || s.last() == '\n',
    ensures
        forall|i: int| 0 <= i < whole_lines(s).len() ==> firm(#[trigger] whole_lines(s)[i]),
    decreases s.len(),
{
    lemma_first_of_is(s, '\n');
    let n = first_of(s, '\n') as int;
    if s.len() > 0 {
        assert(s[s.len() - 1] == '\n');
        let rest = s.skip(n + 1);
        if rest.len() > 0 {
            assert(rest.last() == s.last());
        }
        lemma_whole_firm(rest);
        let t = s.take(n);
        let l = whole_lines(s);
        assert forall|i: int| 0 <= i < l.len() implies firm(#[trigger] l[i]) by {
            if i > 0 {
                assert(l[i] == whole_lines(rest)[i - 1]);
            } else if without_cr(t).contains('\n') {
                let j = choose|j: int| 0 <= j < without_cr(t).len() && without_cr(t)[j] == '\n';
                assert(s[j] == '\n');
            }
        }
    }
}

proof fn lemma_ended(s: Seq<char>)
    ensures
        ended(s).len() == 0 || ended(s).last() == '\n',
        s.is_prefix_of(ended(s)),
        own_end(s) == seq!['\n'] || own_end(s) == seq!['\r', '\n'],
{
    assert(ended(s).take(s.len() as int) =~= s);
}

/// Ending the last line changes no line, but for a carriage return at its end.
proof fn lemma_ended_lines(s: Seq<char>, e: Seq<char>)
    requires
        s.len() > 0,
        s.last() != '\n',
        e == seq!['\n'] || (e == seq!['\r', '\n'] && s.last() != '\r'),
    ensures
        lines_of(s).len() > 0,
        lines_of(s + e) == lines_of(s).drop_last().push(without_cr(lines_of(s).last())),
    decreases s.len(),
{
    let t = s + e;
    lemma_first_of_is(s, '\n');
    let i = first_of(s, '\n') as int;
    if i < s.len() {
        let rest = s.skip(i + 1);
        assert(rest.len() > 0 && rest.last() == s.last());
        lemma_ended_lines(rest, e);
        assert(t[i] == '\n');
        assert forall|j: int| 0 <= j < i implies #[trigger] t[j] != '\n' by {
            assert(t[j] == s[j]);
        }
        lemma_first_of(t, '\n', i);
        assert(t.take(i) =~= s.take(i));
        assert(t.skip(i + 1) =~= rest + e);
        assert(lines_of(t) =~= lines_of(s).drop_last().push(without_cr(lines_of(s).last())));
    } else {
        let n = t.len() - 1;
        assert(t[n] == '\n');
        assert forall|j: int| 0 <= j < n implies #[trigger] t[j] != '\n' by {
            if j < s.len() {
                assert(t[j] == s[j]);
            }
        }
        lemma_first_of(t, '\n', n);
        if e.len() == 2 {
            assert(t.take(n) =~= s.push('\r'));
            assert(s.push('\r').drop_last() =~= s);
        } else {
            assert(t.take(n) =~= s);
        }
        assert(t.skip(n + 1) =~= seq![]);
        reveal_with_fuel(lines_of, 2);
        assert(lines_of(t) =~= lines_of(s).drop_last().push(without_cr(lines_of(s).last())));
    }
}

/// Ending the last line changes nothing of what is read.
proof fn lemma_ended_reads(s: Seq<char>, k: Seq<char>, c: Config)
    ensures
        value_of(lines_of(ended(s)), k) == value_of(lines_of(s), k),
        read(c, lines_of(ended(s))) == read(c, lines_of(s)),
{
    lemma_ended(s);
    if lacking(s).len() == 0 {
        assert(ended(s) =~= s);
    } else {
        lemma_ended_lines(s, lacking(s));
        let l = lines_of(s);
        let m = lines_of(ended(s));
        assert(m.drop_last() =~= l.drop_last());
        lemma_entry_without_cr(l.last());
    }
}

proof fn lemma_first_of_shorter(s: Seq<char>, c: char)
    requires
        s.len() > 0,
        s.last() != c,
    ensures
        first_of(s.drop_last(), c) == if first_of(s, c) < s.len() {
            first_of(s, c)
        } else {
            (s.len() - 1) as nat
        },
{
    lemma_first_of_is(s, c);
    let n = first_of(s, c) as int;
    let t = s.drop_last();
    if n < s.len() {
        lemma_first_of(t, c, n);
    } else {
        lemma_first_of(t, c, t.len() as int);
    }
}

proof fn lemma_trim_front_back(s: Seq<char>)
    requires
        s.len() > 0,
        white(s.last()),
    ensures
        trimmed(s) == trimmed(s.drop_last()),
    decreases s.len(),
{
    if s.len() == 1 {
        let none: Seq<char> = seq![];
        assert(s.skip(1) =~= none);
        assert(s.drop_last() =~= none);
        assert(trim_front(none) == none);
        assert(white(s[0]));
    } else if white(s[0]) {
        lemma_trim_front_back(s.skip(1));
        assert(s.skip(1).drop_last() =~= s.drop_last().skip(1));
        assert(s.skip(1).last() == s.last());
        assert(s.drop_last()[0] == s[0]);
    } else {
        assert(s.drop_last()[0] == s[0]);
        assert(trim_front(s) == s);
        assert(trim_front(s.drop_last()) == s.drop_last());
    }
}

/// A carriage return at its end does not change what a line sets.
proof fn lemma_entry_without_cr(x: Seq<char>)
    ensures
        entry_of(without_cr(x)) == entry_of(x),
{
    if x.len() > 0 && x.last() == '\r' {
        let y = x.drop_last();
        lemma_first_of_is(x, '#');
        lemma_first_of_shorter(x, '#');
        let h = first_of(x, '#') as int;
        if h < x.len() {
            assert(y.take(h) =~= x.take(h));
        } else {
            assert(x.take(h) =~= x);
            assert(y.take(first_of(y, '#') as int) =~= y);
            lemma_first_of_is(x, '=');
            lemma_first_of_shorter(x, '=');
            let i = first_of(x, '=') as int;
            if i < x.len() {
                assert(y.take(i) =~= x.take(i));
                let v = x.skip(i + 1);
                assert(y.skip(i + 1) =~= v.drop_last());
                assert(v.last() == x.last());
                lemma_trim_front_back(v);
            }
        }
    }
}

proof fn lemma_trim_keeps(s: Seq<char>, c: char)
    requires
        !white(c),
    ensures
        trimmed(s).contains(c) == s.contains(c),
    decreases s.len(),
{
    if s.len() == 0 {
    } else if white(s[0]) {
        lemma_trim_keeps(s.skip(1), c);
        if s.contains(c) {
            let j = choose|j: int| 0 <= j < s.len() && s[j] == c;
            assert(s.skip(1)[j - 1] == c);
        }
        if s.skip(1).contains(c) {
            let j = choose|j: int| 0 <= j < s.skip(1).len() && s.skip(1)[j] == c;
            assert(s[j + 1] == c);
        }
    } else if white(s.last()) {
        lemma_trim_front_back(s);
        lemma_trim_keeps(s.drop_last(), c);
        if s.contains(c) {
            let j = choose|j: int| 0 <= j < s.len() && s[j] == c;
            assert(s.drop_last()[j] == c);
        }
        if s.drop_last().contains(c) {
            let j = choose|j: int| 0 <= j < s.drop_last().len() && s.drop_last()[j] == c;
            assert(s[j] == c);
        }
    } else {
        assert(trim_front(s) == s);
        assert(trim_back(s) == s);
    }
}

/// For a key without a comment, the line that sets it is the line that is read for it.
proof fn lemma_sets(line: Seq<char>, key: Seq<char>)
    requires
        !key.contains('#'),
    ensures
        sets(line, key) <==> (entry_of(line) is Some && (entry_of(line)->0).0 == key),
{
    let h = first_of(line, '#') as int;
    let i = first_of(line, '=') as int;
    let body = line.take(h);
    lemma_first_of_is(line, '#');
    lemma_first_of_is(line, '=');
    if i < h {
        assert(body[i] == '=');
        assert forall|j: int| 0 <= j < i implies #[trigger] body[j] != '=' by {
            assert(body[j] == line[j]);
        }
        lemma_first_of(body, '=', i);
        assert(body.take(i) =~= line.take(i));
    } else {
        assert forall|j: int| 0 <= j < body.len() implies #[trigger] body[j] != '=' by {
            assert(body[j] == line[j]);
        }
        lemma_first_of(body, '=', body.len() as int);
        if i < line.len() {
            assert(line.take(i)[h] == '#');
            assert(line.take(i).contains('#'));
            lemma_trim_keeps(line.take(i), '#');
        }
    }
}

proof fn lemma_setting(key: Seq<char>, value: Seq<char>)
    requires
        plain(key),
        plain(value),
        !key.contains('='),
    ensures
        entry_of(setting(key, value)) == Some((key, value)),
        !setting(key, value).contains('\n'),
{
    reveal_strlit(" = ");
    let s = setting(key, value);
    let n = key.len() as int;
    assert(s[n] == ' ' && s[n + 1] == '=' && s[n + 2] == ' ');
    assert forall|j: int| 0 <= j < s.len() implies #[trigger] s[j] != '#' && s[j] != '\n' by {
        if j < n {
            assert(s[j] == key[j]);
            assert(key.contains(key[j]));
        } else if j >= n + 3 {
            assert(s[j] == value[j - n - 3]);
            assert(value.contains(value[j - n - 3]));
        }
    }
    lemma_first_of(s, '#', s.len() as int);
    assert(s.take(s.len() as int) =~= s);
    assert forall|j: int| 0 <= j < n + 1 implies #[trigger] s[j] != '=' by {
        if j < n {
            assert(s[j] == key[j]);
            assert(key.contains(key[j]));
        }
    }
    lemma_first_of(s, '=', n + 1);
    let a = s.take(n + 1);
    assert(a.drop_last() =~= key);
    assert(white(a.last()));
    lemma_trim_front_back(a);
    let b = s.skip(n + 2);
    assert(b[0] == ' ');
    assert(b.skip(1) =~= value);
    assert(trim_front(b) == trim_front(value));
}

proof fn lemma_value_replaced(l: Seq<Seq<char>>, key: Seq<char>, value: Seq<char>, k: Seq<char>)
    requires
        plain(key),
        plain(value),
        !key.contains('='),
    ensures
        value_of(replaced(l, key, value), k) == (if k == key {
            if any_sets(l, key) {
                Some(value)
            } else {
                None
            }
        } else {
            value_of(l, k)
        }),
    decreases l.len(),
{
    lemma_setting(key, value);
    let r = replaced(l, key, value);
    if l.len() > 0 {
        let short = l.drop_last();
        assert(r.drop_last() =~= replaced(short, key, value));
        lemma_value_replaced(short, key, value, k);
        lemma_sets(l.last(), key);
        assert(r.last() == if sets(l.last(), key) {
            setting(key, value)
        } else {
            l.last()
        });
        if any_sets(short, key) {
            let i = choose|i: int| 0 <= i < short.len() && sets(#[trigger] short[i], key);
            assert(sets(l[i], key));
        }
        if any_sets(l, key) && !sets(l.last(), key) {
            let i = choose|i: int| 0 <= i < l.len() && sets(#[trigger] l[i], key);
            assert(sets(short[i], key));
        }
        if sets(l.last(), key) {
            assert(sets(l[l.len() - 1], key));
        }
    }
}

proof fn lemma_bare_relined(l: Seq<(Seq<char>, Seq<char>)>, key: Seq<char>, value: Seq<char>)
    ensures
        bare(relined(l, key, value)) == replaced(bare(l), key, value),
{
    assert(bare(relined(l, key, value)) =~= replaced(bare(l), key, value));
}

/// A stored file comes apart into the lines that were put together.
proof fn lemma_stored_lines(text: Seq<char>, key: Seq<char>, value: Seq<char>)
    requires
        one_line(key, value),
    ensures
        whole_lines(stored(text, key, value)) == stored_lines(text, key, value),
{
    let l = whole_lines(ended(text));
    let s = stored_lines(text, key, value);
    lemma_ended(text);
    lemma_whole_firm(ended(text));
    lemma_setting_firm(key, value);
    assert forall|i: int| 0 <= i < s.len() implies firm(#[trigger] s[i]) by {
        if i < l.len() {
            assert(firm(l[i]));
        }
    }
    law_lines_return(s);
}

/// Key and value stand on one line.
pub open spec fn one_line(key: Seq<char>, value: Seq<char>) -> bool {
    &&& !key.contains('\n')
    &&& !value.contains('\n')
    &&& value.len() > 0 ==> value.last() != '\r'
}

proof fn lemma_setting_firm(key: Seq<char>, value: Seq<char>)
    requires
        one_line(key, value),
    ensures
        firm((setting(key, value), seq!['\n'])),
        firm((setting(key, value), seq!['\r', '\n'])),
{
    reveal_strlit(" = ");
    let s = setting(key, value);
    let n = key.len() as int;
    assert forall|j: int| 0 <= j < s.len() implies #[trigger] s[j] != '\n' by {
        if j < n {
            assert(s[j] == key[j]);
            assert(key.contains(key[j]));
        } else if j >= n + 3 {
            assert(s[j] == value[j - n - 3]);
            assert(value.contains(value[j - n - 3]));
        }
    }
    if value.len() > 0 {
        assert(s.last() == value.last());
    } else {
        assert(s.last() == ' ');
    }
}

/// Everything but the key is kept as the user wrote it. Where no line sets the key, all of the text
/// stays, its last line ended, and a line comes after it. Where one does, there are as many lines as
/// before, and each that does not set the key is the same, its end too.
pub proof fn law_rest_kept(text: Seq<char>, key: Seq<char>, value: Seq<char>, i: int)
    requires
        one_line(key, value),
    ensures
        text.is_prefix_of(ended(text)),
        text.len() > 0 && text.last() == '\n' ==> ended(text) == text,
        ({
            let l = whole_lines(ended(text));
            let after = stored(text, key, value);
            let m = whole_lines(after);
            &&& !any_sets(bare(l), key) ==> after == ended(text) + setting(key, value) + own_end(text)
            &&& any_sets(bare(l), key) ==> m.len() == l.len()
            &&& 0 <= i < l.len() ==> i < m.len() && m[i].1 == l[i].1 && m[i].0 == (if sets(
                l[i].0,
                key,
            ) {
                setting(key, value)
            } else {
                l[i].0
            })
            &&& glued(m) == after
            &&& glued(l) == ended(text)
        }),
{
    let l = whole_lines(ended(text));
    lemma_ended(text);
    lemma_stored_lines(text, key, value);
    law_lines_make_the_text(ended(text));
    law_lines_make_the_text(stored(text, key, value));
    if text.len() > 0 && text.last() == '\n' {
        assert(ended(text) =~= text);
    }
    if !any_sets(bare(l), key) {
        lemma_glued_push(l, (setting(key, value), own_end(text)));
        if 0 <= i < l.len() {
            assert(bare(l)[i] == l[i].0);
        }
    }
}

/// Setting a key once more gives what setting it to the last value alone gives; so setting it to the
/// same value twice is setting it once.
pub proof fn law_last_store_counts(text: Seq<char>, key: Seq<char>, v1: Seq<char>, v2: Seq<char>)
    requires
        one_line(key, v1),
        one_line(key, v2),
        trimmed(key) == key,
        !key.contains('='),
    ensures
        stored(stored(text, key, v1), key, v2) == stored(text, key, v2),
{
    let l = whole_lines(ended(text));
    let s1 = stored_lines(text, key, v1);
    let after = stored(text, key, v1);
    lemma_stored_lines(text, key, v1);
    lemma_sets_itself(key, v1);
    lemma_ended(text);
    lemma_setting_firm(key, v1);
    lemma_whole_firm(ended(text));
    // The file ends with a newline, so that it is not ended once more.
    assert(s1.len() > 0) by {
        if any_sets(bare(l), key) {
            assert(bare(l).len() > 0);
        }
    }
    let last = s1.last();
    assert(s1 =~= s1.drop_last().push(last));
    lemma_glued_push(s1.drop_last(), last);
    assert(last.1.last() == '\n' && last.1.len() > 0) by {
        if any_sets(bare(l), key) {
            assert(firm(l[l.len() - 1]));
        }
    }
    assert(after.last() == '\n' && after.len() > 0);
    assert(ended(after) =~= after);
    assert(any_sets(bare(s1), key)) by {
        if any_sets(bare(l), key) {
            let i = choose|i: int| 0 <= i < bare(l).len() && sets(#[trigger] bare(l)[i], key);
            assert(bare(s1)[i] == setting(key, v1));
        } else {
            assert(bare(s1)[l.len() as int] == setting(key, v1));
        }
    }
    let s2 = relined(s1, key, v2);
    if any_sets(bare(l), key) {
        assert(s2 =~= relined(l, key, v2));
    } else {
        assert forall|i: int| 0 <= i < l.len() implies !sets(#[trigger] l[i].0, key) by {
            assert(bare(l)[i] == l[i].0);
        }
        assert(s2 =~= l.push((setting(key, v2), own_end(text))));
    }
}

proof fn lemma_sets_itself(key: Seq<char>, value: Seq<char>)
    requires
        trimmed(key) == key,
        !key.contains('='),
    ensures
        sets(setting(key, value), key),
{
    reveal_strlit(" = ");
    let s = setting(key, value);
    let n = key.len() as int;
    assert(s[n] == ' ' && s[n + 1] == '=');
    assert forall|j: int| 0 <= j < n + 1 implies #[trigger] s[j] != '=' by {
        if j < n {
            assert(s[j] == key[j]);
            assert(key.contains(key[j]));
        }
    }
    lemma_first_of(s, '=', n + 1);
    let a = s.take(n + 1);
    assert(a.drop_last() =~= key);
    lemma_trim_front_back(a);
}

proof fn lemma_plain_one_line(key: Seq<char>, value: Seq<char>)
    requires
        plain(key),
        plain(value),
    ensures
        one_line(key, value),
{
    if value.len() > 0 && value.last() == '\r' {
        lemma_trim_front_back(value);
        lemma_trim_shorter(value.drop_last());
    }
}

proof fn lemma_trim_shorter(s: Seq<char>)
    ensures
        trimmed(s).len() <= s.len(),
    decreases s.len(),
{
    if s.len() > 0 {
        if white(s[0]) {
            lemma_trim_shorter(s.skip(1));
        } else if white(s.last()) {
            lemma_trim_front_back(s);
            lemma_trim_shorter(s.drop_last());
        } else {
            assert(trim_front(s) == s);
            assert(trim_back(s) == s);
        }
    }
}

/// The lines that a stored file is read from.
proof fn lemma_stored_read(text: Seq<char>, key: Seq<char>, value: Seq<char>)
    requires
        one_line(key, value),
    ensures
        ({
            let l = lines_of(ended(text));
            lines_of(stored(text, key, value)) == (if any_sets(l, key) {
                replaced(l, key, value)
            } else {
                l.push(setting(key, value))
            })
        }),
{
    let l = whole_lines(ended(text));
    lemma_stored_lines(text, key, value);
    lemma_whole_texts(ended(text));
    lemma_whole_texts(stored(text, key, value));
    lemma_bare_relined(l, key, value);
    if !any_sets(bare(l), key) {
        assert(bare(stored_lines(text, key, value)) =~= bare(l).push(setting(key, value)));
    }
}

/// What was stored is what counts for its key, and every other key keeps its value.
pub proof fn law_stored(text: Seq<char>, key: Seq<char>, value: Seq<char>, other: Seq<char>)
    requires
        plain(key),
        plain(value),
        !key.contains('='),
        other != key,
    ensures
        ({
            let after = stored(text, key, value);
            &&& value_of(lines_of(after), key) == Some(value)
            &&& value_of(lines_of(after), other) == value_of(lines_of(text), other)
        }),
{
    let l = lines_of(ended(text));
    lemma_plain_one_line(key, value);
    lemma_stored_read(text, key, value);
    lemma_setting(key, value);
    lemma_ended_reads(text, other, initial());
    lemma_value_replaced(l, key, value, key);
    lemma_value_replaced(l, key, value, other);
    if !any_sets(l, key) {
        assert(l.push(setting(key, value)).drop_last() =~= l);
    }
}

/// Two settings that differ in one at most.
pub open spec fn apart(a: Config, b: Config, k: Knob) -> bool {
    &&& k != Knob::Window ==> a.window == b.window
    &&& k != Knob::Wheel ==> a.wheel_zoom == b.wheel_zoom
    &&& k != Knob::Wrap ==> a.wrap == b.wrap
    &&& k != Knob::UpscaleSmall ==> a.upscale_small == b.upscale_small
    &&& k != Knob::KeepZoom ==> a.keep_zoom == b.keep_zoom
    &&& k != Knob::Background ==> a.background == b.background
    &&& k != Knob::Info ==> a.info == b.info
    &&& k != Knob::PrefetchAhead ==> a.prefetch_ahead == b.prefetch_ahead
    &&& k != Knob::PrefetchBehind ==> a.prefetch_behind == b.prefetch_behind
    &&& k != Knob::Gpu ==> a.prefer_integrated == b.prefer_integrated
    &&& k != Knob::ImplicitLayers ==> a.implicit_layers == b.implicit_layers
    &&& k != Knob::Resident ==> a.resident == b.resident
    &&& k != Knob::TrimMemory ==> a.trim_memory == b.trim_memory
    &&& k != Knob::SetupDone ==> a.setup_done == b.setup_done
    &&& k != Knob::Placement ==> a.placement == b.placement
}

/// A knob turns nothing but its own setting.
proof fn lemma_own_setting(c: Config, k: Knob, v: Seq<char>)
    ensures
        k != Knob::Window ==> turned(c, k, v).window == c.window,
        k != Knob::Wheel ==> turned(c, k, v).wheel_zoom == c.wheel_zoom,
        k != Knob::Wrap ==> turned(c, k, v).wrap == c.wrap,
        k != Knob::UpscaleSmall ==> turned(c, k, v).upscale_small == c.upscale_small,
        k != Knob::KeepZoom ==> turned(c, k, v).keep_zoom == c.keep_zoom,
        k != Knob::Background ==> turned(c, k, v).background == c.background,
        k != Knob::Info ==> turned(c, k, v).info == c.info,
        k != Knob::PrefetchAhead ==> turned(c, k, v).prefetch_ahead == c.prefetch_ahead,
        k != Knob::PrefetchBehind ==> turned(c, k, v).prefetch_behind == c.prefetch_behind,
        k != Knob::Gpu ==> turned(c, k, v).prefer_integrated == c.prefer_integrated,
        k != Knob::ImplicitLayers ==> turned(c, k, v).implicit_layers == c.implicit_layers,
        k != Knob::Resident ==> turned(c, k, v).resident == c.resident,
        k != Knob::TrimMemory ==> turned(c, k, v).trim_memory == c.trim_memory,
        k != Knob::SetupDone ==> turned(c, k, v).setup_done == c.setup_done,
        k != Knob::Placement ==> turned(c, k, v).placement == c.placement,
{
    reveal(turned);
}

/// What a knob makes of its setting goes by that setting alone.
proof fn lemma_same_setting(c: Config, d: Config, k: Knob, v: Seq<char>)
    ensures
        k == Knob::Window && c.window == d.window ==> turned(c, k, v).window == turned(d, k, v).window,
        k == Knob::Wheel && c.wheel_zoom == d.wheel_zoom ==> turned(c, k, v).wheel_zoom == turned(d, k, v).wheel_zoom,
        k == Knob::Wrap && c.wrap == d.wrap ==> turned(c, k, v).wrap == turned(d, k, v).wrap,
        k == Knob::UpscaleSmall && c.upscale_small == d.upscale_small ==> turned(c, k, v).upscale_small == turned(d, k, v).upscale_small,
        k == Knob::KeepZoom && c.keep_zoom == d.keep_zoom ==> turned(c, k, v).keep_zoom == turned(d, k, v).keep_zoom,
        k == Knob::Background && c.background == d.background ==> turned(c, k, v).background == turned(d, k, v).background,
        k == Knob::Info && c.info == d.info ==> turned(c, k, v).info == turned(d, k, v).info,
        k == Knob::PrefetchAhead && c.prefetch_ahead == d.prefetch_ahead ==> turned(c, k, v).prefetch_ahead == turned(d, k, v).prefetch_ahead,
        k == Knob::PrefetchBehind && c.prefetch_behind == d.prefetch_behind ==> turned(c, k, v).prefetch_behind == turned(d, k, v).prefetch_behind,
        k == Knob::Gpu && c.prefer_integrated == d.prefer_integrated ==> turned(c, k, v).prefer_integrated == turned(d, k, v).prefer_integrated,
        k == Knob::ImplicitLayers && c.implicit_layers == d.implicit_layers ==> turned(c, k, v).implicit_layers == turned(d, k, v).implicit_layers,
        k == Knob::Resident && c.resident == d.resident ==> turned(c, k, v).resident == turned(d, k, v).resident,
        k == Knob::TrimMemory && c.trim_memory == d.trim_memory ==> turned(c, k, v).trim_memory == turned(d, k, v).trim_memory,
        k == Knob::SetupDone && c.setup_done == d.setup_done ==> turned(c, k, v).setup_done == turned(d, k, v).setup_done,
        k == Knob::Placement && c.placement == d.placement ==> turned(c, k, v).placement == turned(d, k, v).placement,
{
    reveal(turned);
}

proof fn lemma_turned_both(a: Config, b: Config, k: Knob, by: Knob, v: Seq<char>)
    requires
        apart(a, b, k),
    ensures
        apart(turned(a, by, v), turned(b, by, v), k),
{
    lemma_own_setting(a, by, v);
    lemma_own_setting(b, by, v);
    lemma_same_setting(a, b, by, v);
}

proof fn lemma_turned_one(a: Config, b: Config, k: Knob, v: Seq<char>, w: Seq<char>)
    requires
        apart(a, b, k),
    ensures
        apart(turned(a, k, v), turned(b, k, w), k),
        apart(turned(a, k, v), b, k),
{
    lemma_own_setting(a, k, v);
    lemma_own_setting(b, k, w);
}

proof fn lemma_read_apart(l: Seq<Seq<char>>, key: Seq<char>, value: Seq<char>)
    requires
        plain(key),
        plain(value),
        !key.contains('='),
    ensures
        apart(read(initial(), replaced(l, key, value)), read(initial(), l), knob(key)),
    decreases l.len(),
{
    let r = replaced(l, key, value);
    lemma_setting(key, value);
    if l.len() > 0 {
        let short = l.drop_last();
        assert(r.drop_last() =~= replaced(short, key, value));
        lemma_read_apart(short, key, value);
        let a = read(initial(), r.drop_last());
        let b = read(initial(), short);
        lemma_sets(l.last(), key);
        match entry_of(l.last()) {
            Some(e) => {
                if e.0 == key {
                    lemma_turned_one(a, b, knob(key), value, e.1);
                } else {
                    lemma_turned_both(a, b, knob(key), knob(e.0), e.1);
                }
            },
            None => {},
        }
    }
}

/// After a key was stored, every setting but its own is as it was.
pub proof fn law_other_settings_stay(text: Seq<char>, key: Seq<char>, value: Seq<char>)
    requires
        plain(key),
        plain(value),
        !key.contains('='),
    ensures
        apart(settings(stored(text, key, value)), settings(text), knob(key)),
{
    let l = lines_of(ended(text));
    lemma_plain_one_line(key, value);
    lemma_stored_read(text, key, value);
    lemma_setting(key, value);
    lemma_ended_reads(text, key, initial());
    if any_sets(l, key) {
        lemma_read_apart(l, key, value);
    } else {
        let m = l.push(setting(key, value));
        assert(m.drop_last() =~= l);
        lemma_turned_one(
            read(initial(), l),
            read(initial(), l),
            knob(key),
            value,
            value,
        );
    }
}

proof fn lemma_knobs(a: Seq<char>, b: Seq<char>)
    requires
        a != b,
    ensures
        knob(a) != knob(b) || knob(a) == Knob::Unknown,
{
    reveal(knob);
}

/// The settings are as a knob turned to this value leaves them.
pub open spec fn in_force(c: Config, k: Knob, v: Seq<char>) -> bool {
    match k {
        Knob::Window => c.window == (if v == "normal"@ {
            WindowMode::Normal
        } else if v == "fullscreen"@ {
            WindowMode::Fullscreen
        } else {
            WindowMode::Maximized
        }),
        Knob::Wheel => c.wheel_zoom == (v != "navigate"@),
        Knob::Wrap => c.wrap == yes(v),
        Knob::UpscaleSmall => c.upscale_small == yes(v),
        Knob::KeepZoom => c.keep_zoom == yes(v),
        Knob::Info => c.info == yes(v),
        Knob::Background => colour(v) is Some ==> c.background == colour(v),
        Knob::PrefetchAhead => c.prefetch_ahead == depth(v, 4),
        Knob::PrefetchBehind => c.prefetch_behind == depth(v, 2),
        Knob::Gpu => c.prefer_integrated == (v == "integrated"@),
        Knob::ImplicitLayers => c.implicit_layers == yes(v),
        Knob::Resident => c.resident == yes(v),
        Knob::TrimMemory => c.trim_memory == yes(v),
        Knob::SetupDone => c.setup_done == yes(v),
        Knob::Placement => place(v) is Some ==> c.placement == place(v),
        Knob::Unknown => true,
    }
}

proof fn lemma_turned(c: Config, k: Knob, v: Seq<char>)
    ensures
        in_force(turned(c, k, v), k, v),
{
    reveal(turned);
}

proof fn lemma_turned_apart(c: Config, k: Knob, v: Seq<char>, k2: Knob, v2: Seq<char>)
    requires
        k != k2 || k == Knob::Unknown,
        in_force(c, k, v),
    ensures
        in_force(turned(c, k2, v2), k, v),
{
    lemma_own_setting(c, k2, v2);
}

proof fn lemma_in_force(c: Config, l: Seq<Seq<char>>, k: Seq<char>, v: Seq<char>)
    requires
        value_of(l, k) == Some(v),
    ensures
        in_force(read(c, l), knob(k), v),
    decreases l.len(),
{
    let before = read(c, l.drop_last());
    match entry_of(l.last()) {
        Some(e) => {
            if e.0 == k {
                lemma_turned(before, knob(k), v);
            } else {
                lemma_in_force(c, l.drop_last(), k, v);
                lemma_knobs(k, e.0);
                lemma_turned_apart(before, knob(k), v, knob(e.0), e.1);
            }
        },
        None => {
            lemma_in_force(c, l.drop_last(), k, v);
        },
    }
}

/// What was stored is in force when the file is next read.
pub proof fn law_stored_is_in_force(text: Seq<char>, key: Seq<char>, value: Seq<char>)
    requires
        plain(key),
        plain(value),
        !key.contains('='),
    ensures
        in_force(
            settings(stored(text, key, value)),
            knob(key),
            value,
        ),
{
    law_stored(text, key, value, key.push('='));
    lemma_in_force(
        initial(),
        lines_of(stored(text, key, value)),
        key,
        value,
    );
}

/// A number written comes back as it was.
pub proof fn law_integer_returns(n: i32)
    ensures
        integer(trimmed(signed_decimal(n as int))) == Some(n as int),
        !signed_decimal(n as int).contains(','),
        !signed_decimal(n as int).contains('#'),
        !signed_decimal(n as int).contains('\n'),
        signed_decimal(n as int).len() > 0,
        !white(signed_decimal(n as int)[0]),
{
    let s = signed_decimal(n as int);
    let m: nat = if n < 0 {
        (-n) as nat
    } else {
        n as nat
    };
    lemma_decimal_chars(m);
    lemma_decimal_number(m);
    let d = decimal(m);
    assert forall|i: int| 0 <= i < s.len() implies #[trigger] s[i] == '-' || 48 <= s[i] as u32
        <= 57 by {
        if n < 0 {
            if i > 0 {
                assert(s[i] == d[i - 1]);
            }
        } else {
            assert(s[i] == d[i]);
        }
    }
    assert(!white(s.last()));
    crate::text::lemma_trim_fixed(s);
    if n < 0 {
        assert(s.skip(1) =~= d);
    } else {
        assert(s[0] == d[0]);
    }
}

proof fn lemma_parts_cut(a: Seq<char>, rest: Seq<char>)
    requires
        !a.contains(','),
    ensures
        parts(a + seq![','] + rest, ',') == seq![a] + parts(rest, ','),
{
    let s = a + seq![','] + rest;
    let n = a.len() as int;
    assert(s[n] == ',');
    assert forall|j: int| 0 <= j < n implies #[trigger] s[j] != ',' by {
        assert(s[j] == a[j]);
        assert(a.contains(a[j]));
    }
    lemma_first_of(s, ',', n);
    assert(s.take(n) =~= a);
    assert(s.skip(n + 1) =~= rest);
}

#[verifier::rlimit(40)]
proof fn lemma_place_returns(p: Placement)
    ensures
        place(place_text(p)) == Some(p),
        plain(place_text(p)),
{
    reveal(place);
    let a = signed_decimal(p.rect.left as int);
    let b = signed_decimal(p.rect.top as int);
    let c = signed_decimal(p.rect.right as int);
    let d = signed_decimal(p.rect.bottom as int);
    let e = seq![if p.max { '1' } else { '0' }];
    law_integer_returns(p.rect.left);
    law_integer_returns(p.rect.top);
    law_integer_returns(p.rect.right);
    law_integer_returns(p.rect.bottom);
    let s = place_text(p);
    let s4 = d + seq![','] + e;
    let s3 = c + seq![','] + s4;
    let s2 = b + seq![','] + s3;
    assert(s =~= a + seq![','] + s2);
    lemma_parts_cut(a, s2);
    lemma_parts_cut(b, s3);
    lemma_parts_cut(c, s4);
    lemma_parts_cut(d, e);
    lemma_first_of(e, ',', 1);
    assert(parts(e, ',') == seq![e]);
    let q = parts(s, ',');
    assert(q =~= seq![a, b, c, d, e]);
    assert(q.drop_last() =~= seq![a, b, c, d]);
    assert(q.drop_last().drop_last() =~= seq![a, b, c]);
    assert(q.drop_last().drop_last().drop_last() =~= seq![a, b]);
    assert(q.drop_last().drop_last().drop_last().drop_last() =~= seq![a]);
    assert(seq![a].drop_last() =~= seq![]);
    crate::text::lemma_trim_fixed(e);
    assert(integer(e) == Some(if p.max { 1int } else { 0 }));
    reveal_with_fuel(integers, 6);
    assert(integers(q) =~= seq![
        p.rect.left,
        p.rect.top,
        p.rect.right,
        p.rect.bottom,
        if p.max { 1i32 } else { 0 },
    ]);
    assert(s[0] == a[0]);
    assert(s.last() == e[0]);
    crate::text::lemma_trim_fixed(s);
    assert forall|i: int| 0 <= i < s.len() implies #[trigger] s[i] != '#' && s[i] != '\n' by {
        if i < a.len() {
            assert(s[i] == a[i] && a.contains(a[i]));
        } else if i > a.len() {
            let i2 = i - a.len() - 1;
            assert(s[i] == s2[i2]);
            if i2 < b.len() {
                assert(s2[i2] == b[i2] && b.contains(b[i2]));
            } else if i2 > b.len() {
                let i3 = i2 - b.len() - 1;
                assert(s2[i2] == s3[i3]);
                if i3 < c.len() {
                    assert(s3[i3] == c[i3] && c.contains(c[i3]));
                } else if i3 > c.len() {
                    let i4 = i3 - c.len() - 1;
                    assert(s3[i3] == s4[i4]);
                    if i4 < d.len() {
                        assert(s4[i4] == d[i4] && d.contains(d[i4]));
                    }
                }
            }
        }
    }
}

proof fn lemma_knob_words()
    ensures
        knob("window"@) == Knob::Window,
        knob("wheel"@) == Knob::Wheel,
        knob("wrap"@) == Knob::Wrap,
        knob("upscale_small"@) == Knob::UpscaleSmall,
        knob("keep_zoom"@) == Knob::KeepZoom,
        knob("info"@) == Knob::Info,
        knob("background"@) == Knob::Background,
        knob("prefetch_ahead"@) == Knob::PrefetchAhead,
        knob("prefetch_behind"@) == Knob::PrefetchBehind,
        knob("gpu"@) == Knob::Gpu,
        knob("implicit_layers"@) == Knob::ImplicitLayers,
        knob("resident"@) == Knob::Resident,
        knob("trim_memory"@) == Knob::TrimMemory,
        knob("setup_done"@) == Knob::SetupDone,
        knob("placement"@) == Knob::Placement,
        plain("window"@) && !"window"@.contains('='),
        plain("wheel"@) && !"wheel"@.contains('='),
        plain("wrap"@) && !"wrap"@.contains('='),
        plain("upscale_small"@) && !"upscale_small"@.contains('='),
        plain("keep_zoom"@) && !"keep_zoom"@.contains('='),
        plain("info"@) && !"info"@.contains('='),
        plain("background"@) && !"background"@.contains('='),
        plain("prefetch_ahead"@) && !"prefetch_ahead"@.contains('='),
        plain("prefetch_behind"@) && !"prefetch_behind"@.contains('='),
        plain("gpu"@) && !"gpu"@.contains('='),
        plain("implicit_layers"@) && !"implicit_layers"@.contains('='),
        plain("resident"@) && !"resident"@.contains('='),
        plain("trim_memory"@) && !"trim_memory"@.contains('='),
        plain("setup_done"@) && !"setup_done"@.contains('='),
        plain("placement"@) && !"placement"@.contains('='),
        plain("true"@),
{
    reveal(knob);
    reveal_strlit("window");
    reveal_strlit("wheel");
    reveal_strlit("wrap");
    reveal_strlit("upscale_small");
    reveal_strlit("keep_zoom");
    reveal_strlit("info");
    reveal_strlit("background");
    reveal_strlit("prefetch_ahead");
    reveal_strlit("prefetch_behind");
    reveal_strlit("gpu");
    reveal_strlit("implicit_layers");
    reveal_strlit("resident");
    reveal_strlit("trim_memory");
    reveal_strlit("setup_done");
    reveal_strlit("placement");
    reveal_strlit("true");
    assert("window"@[0] == 'w');
    assert("wheel"@[0] == 'w');
    assert("wrap"@[0] == 'w');
    assert("upscale_small"@[0] == 'u');
    assert("keep_zoom"@[0] == 'k');
    assert("info"@[0] == 'i');
    assert("background"@[0] == 'b');
    assert("prefetch_ahead"@[0] == 'p');
    assert("prefetch_behind"@[0] == 'p');
    assert("gpu"@[0] == 'g');
    assert("implicit_layers"@[0] == 'i');
    assert("resident"@[0] == 'r');
    assert("trim_memory"@[0] == 't');
    assert("setup_done"@[0] == 's');
    assert("placement"@[0] == 'p');
    assert("prefetch_behind"@[1] == 'r');
    assert("implicit_layers"@[1] == 'm');
    crate::text::lemma_trim_fixed("window"@);
    crate::text::lemma_trim_fixed("wheel"@);
    crate::text::lemma_trim_fixed("wrap"@);
    crate::text::lemma_trim_fixed("upscale_small"@);
    crate::text::lemma_trim_fixed("keep_zoom"@);
    crate::text::lemma_trim_fixed("info"@);
    crate::text::lemma_trim_fixed("background"@);
    crate::text::lemma_trim_fixed("prefetch_ahead"@);
    crate::text::lemma_trim_fixed("prefetch_behind"@);
    crate::text::lemma_trim_fixed("gpu"@);
    crate::text::lemma_trim_fixed("implicit_layers"@);
    crate::text::lemma_trim_fixed("resident"@);
    crate::text::lemma_trim_fixed("trim_memory"@);
    crate::text::lemma_trim_fixed("setup_done"@);
    crate::text::lemma_trim_fixed("placement"@);
    crate::text::lemma_trim_fixed("true"@);
}

/// The window's place, remembered, is the place it has when the file is next read.
pub proof fn law_placement_returns(text: Seq<char>, p: Placement)
    ensures
        settings(
            stored(text, "placement"@, place_text(p)),
        ).placement == Some(p),
{
    lemma_knob_words();
    lemma_place_returns(p);
    law_stored_is_in_force(text, "placement"@, place_text(p));
}

/// The setup card, once answered, stays answered; a viewer once made resident stays so.
pub proof fn law_answers_stay(text: Seq<char>)
    ensures
        settings(stored(text, "setup_done"@, "true"@)).setup_done,
        settings(stored(text, "resident"@, "true"@)).resident,
{
    reveal(yes);
    lemma_knob_words();
    law_stored_is_in_force(text, "setup_done"@, "true"@);
    law_stored_is_in_force(text, "resident"@, "true"@);
}

/// One setting is the same in both.
pub open spec fn alike(a: Config, b: Config, k: Knob) -> bool {
    match k {
        Knob::Window => a.window == b.window,
        Knob::Wheel => a.wheel_zoom == b.wheel_zoom,
        Knob::Wrap => a.wrap == b.wrap,
        Knob::UpscaleSmall => a.upscale_small == b.upscale_small,
        Knob::KeepZoom => a.keep_zoom == b.keep_zoom,
        Knob::Info => a.info == b.info,
        Knob::Background => a.background == b.background,
        Knob::PrefetchAhead => a.prefetch_ahead == b.prefetch_ahead,
        Knob::PrefetchBehind => a.prefetch_behind == b.prefetch_behind,
        Knob::Gpu => a.prefer_integrated == b.prefer_integrated,
        Knob::ImplicitLayers => a.implicit_layers == b.implicit_layers,
        Knob::Resident => a.resident == b.resident,
        Knob::TrimMemory => a.trim_memory == b.trim_memory,
        Knob::SetupDone => a.setup_done == b.setup_done,
        Knob::Placement => a.placement == b.placement,
        Knob::Unknown => true,
    }
}

#[verifier::rlimit(50)]
proof fn lemma_untouched(c: Config, l: Seq<Seq<char>>, k: Seq<char>)
    requires
        value_of(l, k) is None,
    ensures
        alike(read(c, l), c, knob(k)),
    decreases l.len(),
{
    if l.len() > 0 {
        lemma_untouched(c, l.drop_last(), k);
        let before = read(c, l.drop_last());
        match entry_of(l.last()) {
            Some(e) => {
                lemma_knobs(k, e.0);
                lemma_own_setting(before, knob(e.0), e.1);
            },
            None => {},
        }
    }
}

proof fn lemma_by_key(l: Seq<Seq<char>>, k: Seq<char>)
    ensures
        value_of(l, k) matches Some(v) ==> in_force(read(initial(), l), knob(k), v),
        value_of(l, k) is None ==> alike(read(initial(), l), initial(), knob(k)),
{
    match value_of(l, k) {
        Some(v) => lemma_in_force(initial(), l, k, v),
        None => lemma_untouched(initial(), l, k),
    }
}

/// A setting that is on or off goes by the last line that sets the key of that very name: on for the
/// four words for yes, off for any other, and as documented where no line sets it.
pub proof fn law_switches(text: Seq<char>, v: Seq<char>)
    ensures
        ({
            let c = settings(text);
            let l = lines_of(text);
            let on = v == "true"@ || v == "1"@ || v == "yes"@ || v == "on"@;
            &&& value_of(l, "wrap"@) == Some(v) ==> c.wrap == on
            &&& value_of(l, "wrap"@) is None ==> c.wrap
            &&& value_of(l, "upscale_small"@) == Some(v) ==> c.upscale_small == on
            &&& value_of(l, "upscale_small"@) is None ==> !c.upscale_small
            &&& value_of(l, "keep_zoom"@) == Some(v) ==> c.keep_zoom == on
            &&& value_of(l, "keep_zoom"@) is None ==> !c.keep_zoom
            &&& value_of(l, "info"@) == Some(v) ==> c.info == on
            &&& value_of(l, "info"@) is None ==> c.info
            &&& value_of(l, "implicit_layers"@) == Some(v) ==> c.implicit_layers == on
            &&& value_of(l, "implicit_layers"@) is None ==> !c.implicit_layers
            &&& value_of(l, "resident"@) == Some(v) ==> c.resident == on
            &&& value_of(l, "resident"@) is None ==> c.resident
            &&& value_of(l, "trim_memory"@) == Some(v) ==> c.trim_memory == on
            &&& value_of(l, "trim_memory"@) is None ==> c.trim_memory
            &&& value_of(l, "setup_done"@) == Some(v) ==> c.setup_done == on
            &&& value_of(l, "setup_done"@) is None ==> !c.setup_done
        }),
{
    reveal(yes);
    lemma_knob_words();
    let l = lines_of(text);
    lemma_by_key(l, "wrap"@);
    lemma_by_key(l, "upscale_small"@);
    lemma_by_key(l, "keep_zoom"@);
    lemma_by_key(l, "info"@);
    lemma_by_key(l, "implicit_layers"@);
    lemma_by_key(l, "resident"@);
    lemma_by_key(l, "trim_memory"@);
    lemma_by_key(l, "setup_done"@);
}

/// A setting that is one of several words goes by the last line that sets its own key.
pub proof fn law_words(text: Seq<char>, v: Seq<char>)
    ensures
        ({
            let c = settings(text);
            let l = lines_of(text);
            &&& value_of(l, "window"@) == Some(v) ==> {
                &&& v == "normal"@ <==> c.window == WindowMode::Normal
                &&& v == "fullscreen"@ <==> c.window == WindowMode::Fullscreen
            }
            &&& value_of(l, "window"@) is None ==> c.window == WindowMode::Maximized
            &&& value_of(l, "wheel"@) == Some(v) ==> (c.wheel_zoom <==> v != "navigate"@)
            &&& value_of(l, "wheel"@) is None ==> c.wheel_zoom
            &&& value_of(l, "gpu"@) == Some(v) ==> (c.prefer_integrated <==> v == "integrated"@)
            &&& value_of(l, "gpu"@) is None ==> !c.prefer_integrated
        }),
{
    reveal_strlit("normal");
    reveal_strlit("fullscreen");
    assert("normal"@.len() != "fullscreen"@.len());
    lemma_knob_words();
    let l = lines_of(text);
    lemma_by_key(l, "window"@);
    lemma_by_key(l, "wheel"@);
    lemma_by_key(l, "gpu"@);
}

proof fn lemma_depth(n: nat, other: usize)
    requires
        n <= usize::MAX,
    ensures
        depth(decimal(n), other) == (if n < 32 {
            n as usize
        } else {
            32
        }),
{
    reveal(depth);
    lemma_decimal_number(n);
    lemma_decimal_chars(n);
}

/// How many images to decode is the number the last line with its key gives, up to 32, and as
/// documented where that is no number or there is no such line.
pub proof fn law_counts(text: Seq<char>, n: nat, v: Seq<char>)
    requires
        n <= usize::MAX,
    ensures
        ({
            let c = settings(text);
            let l = lines_of(text);
            &&& value_of(l, "prefetch_ahead"@) == Some(decimal(n)) ==> (n < 32 ==> c.prefetch_ahead == n)
                && (n >= 32 ==> c.prefetch_ahead == 32)
            &&& value_of(l, "prefetch_behind"@) == Some(decimal(n)) ==> (n < 32 ==> c.prefetch_behind
                == n) && (n >= 32 ==> c.prefetch_behind == 32)
            &&& unsigned(v, 10, usize::MAX as nat) is None ==> {
                &&& value_of(l, "prefetch_ahead"@) == Some(v) ==> c.prefetch_ahead == 4
                &&& value_of(l, "prefetch_behind"@) == Some(v) ==> c.prefetch_behind == 2
            }
            &&& value_of(l, "prefetch_ahead"@) is None ==> c.prefetch_ahead == 4
            &&& value_of(l, "prefetch_behind"@) is None ==> c.prefetch_behind == 2
        }),
{
    lemma_knob_words();
    let l = lines_of(text);
    lemma_by_key(l, "prefetch_ahead"@);
    lemma_by_key(l, "prefetch_behind"@);
    lemma_depth(n, 4);
    lemma_depth(n, 2);
    if unsigned(v, 10, usize::MAX as nat) is None {
        reveal(depth);
    }
}

/// A colour written in hex, red first, in either case of letters, is the background.
pub proof fn law_background(text: Seq<char>, c: Rgb, upper: bool)
    ensures
        ({
            let word = hex((0x1_0000 * c.r + 0x100 * c.g + c.b) as nat, 6, upper);
            &&& value_of(lines_of(text), "background"@) == Some(word) ==> settings(text).background
                == Some(c)
            &&& value_of(lines_of(text), "background"@) is None ==> settings(text).background is None
        }),
{
    lemma_knob_words();
    let n = (0x1_0000 * c.r + 0x100 * c.g + c.b) as nat;
    let word = hex(n, 6, upper);
    lemma_by_key(lines_of(text), "background"@);
    law_hex_returns(n, 6, upper);
    reveal_with_fuel(sixteens, 7);
    assert(word[0] != '+');
    reveal(colour);
    assert(n / 0x1_0000 % 256 == c.r && n / 0x100 % 256 == c.g && n % 256 == c.b);
}

/// What is stored under a key of the documented table is what the setting of that very name is when the
/// file is next read, whatever the file held.
pub proof fn law_each_key_is_its_own(text: Seq<char>, v: Seq<char>, p: Placement)
    requires
        plain(v),
    ensures
        ({
            let on = v == "true"@ || v == "1"@ || v == "yes"@ || v == "on"@;
            &&& settings(stored(text, "wrap"@, v)).wrap == on
            &&& settings(stored(text, "upscale_small"@, v)).upscale_small == on
            &&& settings(stored(text, "keep_zoom"@, v)).keep_zoom == on
            &&& settings(stored(text, "info"@, v)).info == on
            &&& settings(stored(text, "implicit_layers"@, v)).implicit_layers == on
            &&& settings(stored(text, "resident"@, v)).resident == on
            &&& settings(stored(text, "trim_memory"@, v)).trim_memory == on
            &&& settings(stored(text, "setup_done"@, v)).setup_done == on
            &&& (settings(stored(text, "window"@, v)).window == WindowMode::Normal) == (v == "normal"@)
            &&& (settings(stored(text, "window"@, v)).window == WindowMode::Fullscreen) == (v
                == "fullscreen"@)
            &&& settings(stored(text, "wheel"@, v)).wheel_zoom == (v != "navigate"@)
            &&& settings(stored(text, "gpu"@, v)).prefer_integrated == (v == "integrated"@)
            &&& settings(stored(text, "placement"@, place_text(p))).placement == Some(p)
        }),
{
    reveal(yes);
    reveal_strlit("normal");
    reveal_strlit("fullscreen");
    lemma_knob_words();
    law_stored_is_in_force(text, "wrap"@, v);
    law_stored_is_in_force(text, "upscale_small"@, v);
    law_stored_is_in_force(text, "keep_zoom"@, v);
    law_stored_is_in_force(text, "info"@, v);
    law_stored_is_in_force(text, "implicit_layers"@, v);
    law_stored_is_in_force(text, "resident"@, v);
    law_stored_is_in_force(text, "trim_memory"@, v);
    law_stored_is_in_force(text, "setup_done"@, v);
    law_stored_is_in_force(text, "window"@, v);
    law_stored_is_in_force(text, "wheel"@, v);
    law_stored_is_in_force(text, "gpu"@, v);
    law_placement_returns(text, p);
}

/// A number or a colour that is stored comes back as it was.
pub proof fn law_stored_numbers_return(text: Seq<char>, n: nat, c: Rgb)
    requires
        n < 32,
    ensures
        settings(stored(text, "prefetch_ahead"@, decimal(n))).prefetch_ahead == n,
        settings(stored(text, "prefetch_behind"@, decimal(n))).prefetch_behind == n,
        settings(
            stored(
                text,
                "background"@,
                hex((0x1_0000 * c.r + 0x100 * c.g + c.b) as nat, 6, false),
            ),
        ).background == Some(c),
{
    lemma_knob_words();
    let m = (0x1_0000 * c.r + 0x100 * c.g + c.b) as nat;
    let word = hex(m, 6, false);
    law_hex_returns(m, 6, false);
    lemma_decimal_chars(n);
    crate::text::lemma_trim_fixed(decimal(n));
    crate::text::lemma_trim_fixed(word);
    let key = "prefetch_ahead"@;
    law_stored(text, key, decimal(n), key.push('='));
    law_counts(stored(text, key, decimal(n)), n, decimal(n));
    let key = "prefetch_behind"@;
    law_stored(text, key, decimal(n), key.push('='));
    law_counts(stored(text, key, decimal(n)), n, decimal(n));
    let key = "background"@;
    law_stored(text, key, word, key.push('='));
    law_background(stored(text, key, word), c, false);
}

/// A line sets a key to a value where an `=` stands between them, with any white space around both,
/// and before any comment.
pub proof fn law_a_line_sets(
    a: Seq<char>,
    key: Seq<char>,
    b: Seq<char>,
    value: Seq<char>,
    d: Seq<char>,
    comment: Seq<char>,
)
    requires
        trimmed(a + key + b) == key,
        trimmed(d + value) == value,
        !(a + key + b).contains('='),
        !(a + key + b).contains('#'),
        !(d + value).contains('#'),
    ensures
        entry_of((a + key + b) + seq!['='] + (d + value)) == Some((key, value)),
        entry_of((a + key + b) + seq!['='] + (d + value) + seq!['#'] + comment) == Some((key, value)),
        entry_of((a + key + b) + seq!['#'] + comment) is None,
{
    let k = a + key + b;
    let v = d + value;
    let plain = k + seq!['='] + v;
    let line = plain + seq!['#'] + comment;
    let none = k + seq!['#'] + comment;
    let n = k.len() as int;
    assert forall|j: int| 0 <= j < plain.len() implies #[trigger] plain[j] != '#' by {
        if j < n {
            assert(k.contains(k[j]));
        } else if j > n {
            assert(plain[j] == v[j - n - 1] && v.contains(v[j - n - 1]));
        }
    }
    assert forall|j: int| 0 <= j < n implies #[trigger] plain[j] != '=' by {
        assert(k.contains(k[j]));
    }
    lemma_first_of(plain, '#', plain.len() as int);
    lemma_first_of(line, '#', plain.len() as int);
    assert(plain.take(plain.len() as int) =~= plain);
    assert(line.take(plain.len() as int) =~= plain);
    lemma_first_of(plain, '=', n);
    assert(plain.take(n) =~= k);
    assert(plain.skip(n + 1) =~= v);
    assert forall|j: int| 0 <= j < n implies #[trigger] none[j] != '#' by {
        assert(k.contains(k[j]));
    }
    assert forall|j: int| 0 <= j < n implies #[trigger] k[j] != '=' by {
        assert(k.contains(k[j]));
    }
    lemma_first_of(none, '#', n);
    assert(none.take(n) =~= k);
    lemma_first_of(k, '=', n);
}

proof fn lemma_nothing_set(c: Config, l: Seq<Seq<char>>)
    requires
        forall|i: int| 0 <= i < l.len() ==> entry_of(#[trigger] l[i]) is None,
    ensures
        read(c, l) == c,
    decreases l.len(),
{
    if l.len() > 0 {
        let short = l.drop_last();
        assert forall|i: int| 0 <= i < short.len() implies entry_of(#[trigger] short[i]) is None by {
            assert(short[i] == l[i]);
        }
        lemma_nothing_set(c, short);
        assert(entry_of(l[l.len() - 1]) is None);
    }
}

/// A file that sets nothing, whatever comments it has, leaves what the settings file documents as the
/// defaults.
pub proof fn law_defaults(text: Seq<char>)
    requires
        forall|i: int| 0 <= i < lines_of(text).len() ==> entry_of(#[trigger] lines_of(text)[i]) is None,
    ensures
        ({
            let c = settings(text);
            &&& c.window == WindowMode::Maximized
            &&& c.wheel_zoom && c.wrap && c.info && c.resident && c.trim_memory
            &&& !c.upscale_small && !c.keep_zoom && !c.prefer_integrated && !c.implicit_layers
            &&& !c.setup_done
            &&& c.prefetch_ahead == 4 && c.prefetch_behind == 2
            &&& c.background is None && c.placement is None
        }),
{
    lemma_nothing_set(initial(), lines_of(text));
}

/// What stands behind a `#` is no part of a setting, and what is around the key and the value is not.
pub proof fn law_comment(line: Seq<char>, comment: Seq<char>)
    requires
        forall|i: int| 0 <= i < line.len() ==> #[trigger] line[i] != '#',
    ensures
        entry_of(line + seq!['#'] + comment) == entry_of(line),
        entry_of(seq!['#'] + comment) is None,
{
    let whole = line + seq!['#'] + comment;
    lemma_first_is(line, seq!['#'] + comment, '#');
    assert(whole =~= line + (seq!['#'] + comment));
    assert(whole.take(line.len() as int) =~= line);
    lemma_first_is(line, seq![], '#');
    assert(line + seq![] =~= line);
    assert(line.take(line.len() as int) =~= line);
    let c = seq!['#'] + comment;
    assert(c[0] == '#');
    assert(first_of(c, '#') == 0);
    assert(c.take(0) =~= seq![]);
    assert(first_of(seq![], '=') == 0);
}

/// A text's lines end as its first one does, and its last line is ended in that way, where it is not; a
/// carriage return that waits for its newline gets one. A setting is written with its key first.
pub proof fn law_line_ends(a: Seq<char>, b: Seq<char>, key: Seq<char>, value: Seq<char>)
    requires
        forall|i: int| 0 <= i < a.len() ==> #[trigger] a[i] != '\n',
    ensures
        own_end(a + seq!['\r', '\n'] + b) == seq!['\r', '\n'],
        a.len() == 0 || a.last() != '\r' ==> own_end(a + seq!['\n'] + b) == seq!['\n'],
        own_end(a) == seq!['\n'],
        a.len() > 0 && a.last() == '\r' ==> lacking(a) == seq!['\n'],
        a.len() > 0 && a.last() != '\r' ==> lacking(a) == own_end(a),
        b.len() > 0 && b.last() == '\n' ==> lacking(b).len() == 0,
        b.len() > 0 && b.last() != '\n' && b.last() != '\r' ==> lacking(b) == own_end(b),
        setting(key, value) == key + " = "@ + value,
{
    let cr = a.push('\r');
    let s = a + seq!['\r', '\n'] + b;
    assert forall|i: int| 0 <= i < cr.len() implies #[trigger] cr[i] != '\n' by {
        if i < a.len() {
            assert(cr[i] == a[i]);
        }
    }
    lemma_first_is(cr, seq!['\n'] + b, '\n');
    assert(s =~= cr + (seq!['\n'] + b));
    assert(s.take(cr.len() as int) =~= cr);
    let t = a + seq!['\n'] + b;
    lemma_first_is(a, seq!['\n'] + b, '\n');
    assert(t =~= a + (seq!['\n'] + b));
    assert(t.take(a.len() as int) =~= a);
    lemma_first_is(a, seq![], '\n');
    assert(a + seq![] =~= a);
    if a.len() > 0 {
        assert(a[a.len() - 1] != '\n');
    }
}

} // verus!
