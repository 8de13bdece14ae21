//! How a launch goes: what the command line asks for, and whether a viewer that is running takes it over.

use crate::files::{equal_but_case, same_but_case};
use crate::text::{chars_of, is_word};
use vstd::prelude::*;

verus! {

pub const UNINSTALLED: &'static str = "Glint is uninstalled.";

pub const REGISTERED: &'static str = "Glint starts with Windows and opens images now.";

pub const UNREGISTERED: &'static str = "Glint is removed from autostart and from image types.";

/// What the first argument asks for.
#[derive(Clone, Copy, PartialEq, Eq, Structural, Debug)]
pub enum Flag {
    /// It is a file, or there is none.
    File,
    Uninstall,
    Register,
    Unregister,
    Quit,
    /// Start hidden, to stay.
    Background,
    /// The file that follows, in a window of its own.
    Window,
    /// An option that means nothing: the viewer starts without a file.
    Other,
}

pub open spec fn is_option(a: Seq<char>) -> bool {
    a.len() >= 2 && a[0] == '-' && a[1] == '-'
}

/// What COM starts its server with.
pub open spec fn embedding(a: Seq<char>) -> bool {
    same_but_case(a, "-Embedding"@) || same_but_case(a, "/Embedding"@)
}

/// What an argument asks for; one that is not text is a file.
pub open spec fn flag_of(a: Option<Seq<char>>) -> Flag {
    match a {
        None => Flag::File,
        Some(a) => if is_option(a) {
            if a == "--uninstall"@ {
                Flag::Uninstall
            } else if a == "--register"@ {
                Flag::Register
            } else if a == "--unregister"@ {
                Flag::Unregister
            } else if a == "--quit"@ {
                Flag::Quit
            } else if a == "--background"@ {
                Flag::Background
            } else if a == "--window"@ {
                Flag::Window
            } else {
                Flag::Other
            }
        } else if embedding(a) {
            Flag::Background
        } else {
            Flag::File
        },
    }
}

fn option_of(v: &[char]) -> (r: Flag)
    requires
        is_option(v@),
    ensures
        r == flag_of(Some(v@)),
{
    if is_word(v, "--uninstall") {
        Flag::Uninstall
    } else if is_word(v, "--register") {
        Flag::Register
    } else if is_word(v, "--unregister") {
        Flag::Unregister
    } else if is_word(v, "--quit") {
        Flag::Quit
    } else if is_word(v, "--background") {
        Flag::Background
    } else if is_word(v, "--window") {
        Flag::Window
    } else {
        Flag::Other
    }
}

pub fn flag(arg: Option<&str>) -> (r: Flag)
    ensures
        r == flag_of(match arg {
            Some(a) => Some(a@),
            None => None,
        }),
{
    match arg {
        None => Flag::File,
        Some(a) => {
            let v = chars_of(a);
            if v.len() >= 2 && v[0] == '-' && v[1] == '-' {
                return option_of(v.as_slice());
            }
            let minus = chars_of("-Embedding");
            let slash = chars_of("/Embedding");
            if equal_but_case(v.as_slice(), minus.as_slice()) || equal_but_case(
                v.as_slice(),
                slash.as_slice(),
            ) {
                Flag::Background
            } else {
                Flag::File
            }
        },
    }
}

/// What a launch comes to.
#[derive(Clone, Copy, PartialEq, Eq, Structural, Debug)]
pub enum Launch {
    /// The viewer that is running is offered the file first; it may not take it.
    HandOver,
    Uninstall,
    Register,
    Unregister,
    /// The viewer that is running is told to stop.
    Quit,
    /// There is nothing to do.
    Exit,
    View(Viewing),
}

/// How the viewer starts.
#[derive(Clone, Copy, PartialEq, Eq, Structural, Debug)]
pub struct Viewing {
    /// Which argument names the file, where one does.
    pub file: Option<usize>,
    /// Hidden, parked for the next photo.
    pub background: bool,
    /// A window of its own, that is closed when it is closed.
    pub detached: bool,
}

/// What a launch does, by what is asked for and whether a viewer is running that has not turned the file
/// down.
pub open spec fn launched(f: Flag, running: bool, refused: bool) -> Launch {
    match f {
        Flag::File => if running && !refused {
            Launch::HandOver
        } else {
            Launch::View(Viewing { file: Some(1), background: false, detached: false })
        },
        Flag::Uninstall => Launch::Uninstall,
        Flag::Register => Launch::Register,
        Flag::Unregister => Launch::Unregister,
        Flag::Quit => if running {
            Launch::Quit
        } else {
            Launch::Exit
        },
        Flag::Background => if running {
            Launch::Exit
        } else {
            Launch::View(Viewing { file: None, background: true, detached: false })
        },
        Flag::Window => Launch::View(Viewing { file: Some(2), background: false, detached: true }),
        Flag::Other => Launch::View(Viewing { file: None, background: false, detached: false }),
    }
}

pub fn launch(f: Flag, running: bool, refused: bool) -> (r: Launch)
    ensures
        r == launched(f, running, refused),
{
    match f {
        Flag::File => if running && !refused {
            Launch::HandOver
        } else {
            Launch::View(Viewing { file: Some(1), background: false, detached: false })
        },
        Flag::Uninstall => Launch::Uninstall,
        Flag::Register => Launch::Register,
        Flag::Unregister => Launch::Unregister,
        Flag::Quit => if running {
            Launch::Quit
        } else {
            Launch::Exit
        },
        Flag::Background => if running {
            Launch::Exit
        } else {
            Launch::View(Viewing { file: None, background: true, detached: false })
        },
        Flag::Window => Launch::View(Viewing { file: Some(2), background: false, detached: true }),
        Flag::Other => Launch::View(Viewing { file: None, background: false, detached: false }),
    }
}

/// What a finished task is reported as, and whether that is an error.
pub fn report(out: Result<(), String>, fine: &str) -> (r: (String, bool))
    ensures
        r.0@ == (match out {
            Ok(_) => fine@,
            Err(e) => e@,
        }),
        r.1 == (out is Err),
{
    match out {
        Ok(_) => (fine.to_owned(), false),
        Err(e) => (e, true),
    }
}

/// The screen to decode for, at least a small one.
pub fn screen(w: i32, h: i32) -> (r: (u32, u32))
    ensures
        r.0 == (if w < 640 {
            640
        } else {
            w
        }),
        r.1 == (if h < 480 {
            480
        } else {
            h
        }),
{
    (
        if w < 640 {
            640
        } else {
            w as u32
        },
        if h < 480 {
            480
        } else {
            h as u32
        },
    )
}

/// With a viewer running nothing starts another one hidden, and a file goes to the one that is running
/// unless that turned it down.
pub proof fn law_one_resident(f: Flag, refused: bool)
    ensures
        launched(f, true, refused) matches Launch::View(v) ==> !v.background,
        f == Flag::File && !refused ==> launched(f, true, refused) == Launch::HandOver,
{
}

/// The options are what they say; any other that starts with two dashes asks for the viewer without a
/// file. What does not is a file, but for what COM starts its server with.
pub proof fn law_flags(a: Seq<char>)
    ensures
        flag_of(None) == Flag::File,
        flag_of(Some("--uninstall"@)) == Flag::Uninstall,
        flag_of(Some("--register"@)) == Flag::Register,
        flag_of(Some("--unregister"@)) == Flag::Unregister,
        flag_of(Some("--quit"@)) == Flag::Quit,
        flag_of(Some("--background"@)) == Flag::Background,
        flag_of(Some("--window"@)) == Flag::Window,
        flag_of(Some("-Embedding"@)) == Flag::Background,
        flag_of(Some("/Embedding"@)) == Flag::Background,
        a.len() < 2 || a[0] != '-' || a[1] != '-' ==> flag_of(Some(a)) == Flag::File || (flag_of(Some(a))
            == Flag::Background && a.len() == 10),
        a.len() >= 2 && a[0] == '-' && a[1] == '-' ==> flag_of(Some(a)) != Flag::File,
        a.len() >= 13 && a[0] == '-' && a[1] == '-' ==> flag_of(Some(a)) == Flag::Other,
{
    reveal_strlit("--uninstall");
    reveal_strlit("--register");
    reveal_strlit("--unregister");
    reveal_strlit("--quit");
    reveal_strlit("--background");
    reveal_strlit("--window");
    reveal_strlit("-Embedding");
    reveal_strlit("/Embedding");
    assert("--quit"@.len() == 6 && "--window"@.len() == 8 && "--register"@.len() == 10
        && "--uninstall"@.len() == 11 && "--background"@.len() == 12 && "--unregister"@.len() == 12);
    assert("--background"@[2] == 'b' && "--unregister"@[2] == 'u');
    assert(same_but_case("-Embedding"@, "-Embedding"@));
    assert(same_but_case("/Embedding"@, "/Embedding"@));
}

/// A launch without a viewer running starts one, unless it was to change or stop something: on the file
/// that follows, hidden, or in a window of its own. Stopping needs one that runs.
pub proof fn law_launches(refused: bool)
    ensures
        launched(Flag::File, false, refused) matches Launch::View(v) && v.file == Some(1usize) && !v.background
            && !v.detached,
        launched(Flag::File, true, true) == launched(Flag::File, false, refused),
        launched(Flag::Background, false, refused) matches Launch::View(v) && v.file is None && v.background
            && !v.detached,
        forall|running: bool|
            #[trigger] launched(Flag::Window, running, refused) matches Launch::View(v) && v.file == Some(
                2usize,
            ) && !v.background && v.detached,
        forall|running: bool|
            #[trigger] launched(Flag::Other, running, refused) matches Launch::View(v) && v.file is None
                && !v.background && !v.detached,
        launched(Flag::Quit, true, refused) == Launch::Quit,
        launched(Flag::Quit, false, refused) == Launch::Exit,
        launched(Flag::Background, true, refused) == Launch::Exit,
        forall|running: bool| #[trigger]
            launched(Flag::Uninstall, running, refused) == Launch::Uninstall,
        forall|running: bool| #[trigger] launched(Flag::Register, running, refused) == Launch::Register,
        forall|running: bool| #[trigger]
            launched(Flag::Unregister, running, refused) == Launch::Unregister,
{
}

} // verus!
