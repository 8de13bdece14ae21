//! Installing like a normal Windows program, per user and without admin rights: the program goes to the
//! user's programs, a shortcut to the Start menu, and an entry to the list of apps to uninstall from.
//! There is no installer: the viewer copies itself.

use crate::assoc::{in_tree, named, regs, removal, set_autostart, set_default, set_dword, undoes, Reg, RegOp, RUN};
use crate::files::{equal_lower, EXTENSIONS};
use crate::path::{
    drive, ended, ends_in, ends_with, inside, join, last_name_end, lemma_name_is, lemma_prefix_len, lemma_squeezed_cat,
    names_from, prefix_len, relative, renamed, separates, separator, squeezed, tidied, verbatim, with_file_name,
};
use crate::launch::{flag_of, Flag};
use crate::text::{cat3, lower};
use vstd::prelude::*;

verus! {

/// `CLSID_ShellLink`.
pub const CLSID_SHELL_LINK: u128 = 0x00021401_0000_0000_c000_000000000046;

/// `IID_IShellLinkW`.
pub const IID_SHELL_LINK_W: u128 = 0x000214f9_0000_0000_c000_000000000046;

/// `IID_IPersistFile`.
pub const IID_PERSIST_FILE: u128 = 0x0000010b_0000_0000_c000_000000000046;

pub const UNINSTALL: &'static str = "Software\\Microsoft\\Windows\\CurrentVersion\\Uninstall\\Glint";

pub const SHORTCUT: &'static str = "Microsoft\\Windows\\Start Menu\\Programs\\Glint.lnk";

pub const DESCRIPTION: &'static str = "Fast image viewer";

/// How often the resident copy is looked for while it is being stopped.
pub const STOP_TRIES: u32 = 50;

proof fn lemma_names()
    ensures
        relative("Programs"@),
        relative("Glint"@),
        relative("glint.exe"@),
        relative("glint.ini"@),
        relative(SHORTCUT@),
{
    reveal_strlit("Programs");
    reveal_strlit("Glint");
    reveal_strlit("glint.exe");
    reveal_strlit("glint.ini");
    reveal_strlit("Microsoft\\Windows\\Start Menu\\Programs\\Glint.lnk");
}

/// The folder of the installed copy: under the user's local data, else under the temporary folder.
pub open spec fn home(local: Option<Seq<char>>, temp: Seq<char>) -> Seq<char> {
    inside(
        inside(
            match local {
                Some(l) => l,
                None => temp,
            },
            "Programs"@,
        ),
        "Glint"@,
    )
}

pub open spec fn text_of(s: Option<&str>) -> Option<Seq<char>> {
    match s {
        Some(t) => Some(t@),
        None => None,
    }
}

pub fn dir(local: Option<&str>, temp: &str) -> (r: String)
    ensures
        r@ == home(text_of(local), temp@),
{
    let base: &str = match local {
        Some(l) => l,
        None => temp,
    };
    proof {
        lemma_names();
    }
    let p = join(base, "Programs");
    join(p.as_str(), "Glint")
}

/// Where the installed copy is.
pub fn target(local: Option<&str>, temp: &str) -> (r: String)
    ensures
        r@ == inside(home(text_of(local), temp@), "glint.exe"@),
{
    let d = dir(local, temp);
    proof {
        lemma_names();
    }
    join(d.as_str(), "glint.exe")
}

/// This process is the installed copy, if its own path is known.
pub fn is_installed_copy(exe: Option<&str>, target: &str) -> (r: bool)
    ensures
        r == (exe is Some && lower((exe->0)@) == lower(target@)),
{
    match exe {
        Some(e) => equal_lower(e, target),
        None => false,
    }
}

pub fn shortcut_path(roaming: Option<&str>) -> (r: String)
    ensures
        r@ == (match roaming {
            Some(d) => inside(d@, SHORTCUT@),
            None => SHORTCUT@,
        }),
{
    proof {
        lemma_names();
    }
    match roaming {
        Some(d) => join(d, SHORTCUT),
        None => SHORTCUT.to_owned(),
    }
}

/// The settings file beside a program.
pub fn ini_beside(exe: &str) -> (r: String)
    ensures
        r@ == renamed(exe@, "glint.ini"@),
{
    proof {
        lemma_names();
    }
    with_file_name(exe, "glint.ini")
}

/// Where an installation stands.
#[derive(Clone, Copy, PartialEq, Eq, Structural, Debug)]
pub enum Installing {
    /// The folder is made.
    Folder,
    /// The program is copied.
    Copy,
    /// An older copy that is running and holds its file is moved out of the way.
    MoveOld,
    CopyAgain,
    /// The settings are copied along.
    Settings,
    /// The setup is noted as done there.
    SetupDone,
    Shortcut,
    Entry,
    Done,
}

/// What an installation finds when it starts.
#[derive(Clone, Copy, PartialEq, Eq, Structural, Debug)]
pub struct Here {
    /// The program runs from the folder it is installed to.
    pub in_place: bool,
    /// There are settings beside the running program.
    pub settings: bool,
    /// There are settings in the folder it is installed to.
    pub kept: bool,
}

/// What comes after a step of an installation.
pub enum Next {
    Go(Installing),
    Failed(String),
}

/// What comes after the program is in place: its settings go along, where the installed copy has none of
/// its own.
pub open spec fn copied(here: Here) -> Installing {
    if here.settings && !here.kept {
        Installing::Settings
    } else {
        Installing::SetupDone
    }
}

/// What comes after a step that went well.
pub open spec fn follows(at: Installing, here: Here) -> Installing {
    match at {
        Installing::Folder => if here.in_place {
            Installing::SetupDone
        } else {
            Installing::Copy
        },
        Installing::Copy => copied(here),
        Installing::MoveOld => Installing::CopyAgain,
        Installing::CopyAgain => copied(here),
        Installing::Settings => Installing::SetupDone,
        Installing::SetupDone => Installing::Shortcut,
        Installing::Shortcut => Installing::Entry,
        Installing::Entry => Installing::Done,
        Installing::Done => Installing::Done,
    }
}

/// What a failed step is reported as.
pub open spec fn reported(at: Installing, e: Seq<char>, dir: Seq<char>, target: Seq<char>) -> Seq<char> {
    match at {
        Installing::Folder => dir + ": "@ + e,
        Installing::MoveOld => target + ": "@ + e,
        Installing::CopyAgain => target + ": "@ + e,
        _ => e,
    }
}

/// A step of an installation was taken, well or not. Settings that cannot be copied or written are no reason to fail; a program that cannot be
/// copied is tried once more, the older one out of the way.
pub fn install(at: Installing, out: Result<(), String>, here: Here, dir: &str, target: &str) -> (r: Next)
    ensures
        out is Ok ==> r == Next::Go(follows(at, here)),
        out is Err && at == Installing::Copy ==> r == Next::Go(Installing::MoveOld),
        out is Err && (at == Installing::Settings || at == Installing::SetupDone || at
            == Installing::Done) ==> r == Next::Go(follows(at, here)),
        out is Err && at != Installing::Copy && at != Installing::Settings && at
            != Installing::SetupDone && at != Installing::Done ==> r is Failed && r->Failed_0@
            == reported(at, out->Err_0@, dir@, target@),
{
    let e: String = match out {
        Ok(_) => {
            return Next::Go(next_step(at, here));
        },
        Err(e) => e,
    };
    match at {
        Installing::Folder => Next::Failed(cat3(dir, ": ", e.as_str())),
        Installing::Copy => Next::Go(Installing::MoveOld),
        Installing::MoveOld => Next::Failed(cat3(target, ": ", e.as_str())),
        Installing::CopyAgain => Next::Failed(cat3(target, ": ", e.as_str())),
        Installing::Settings => Next::Go(Installing::SetupDone),
        Installing::SetupDone => Next::Go(Installing::Shortcut),
        Installing::Shortcut => Next::Failed(e),
        Installing::Entry => Next::Failed(e),
        Installing::Done => Next::Go(Installing::Done),
    }
}

fn after_copy(here: Here) -> (r: Installing)
    ensures
        r == copied(here),
{
    if here.settings && !here.kept {
        Installing::Settings
    } else {
        Installing::SetupDone
    }
}

fn next_step(at: Installing, here: Here) -> (r: Installing)
    ensures
        r == follows(at, here),
{
    match at {
        Installing::Folder => if here.in_place {
            Installing::SetupDone
        } else {
            Installing::Copy
        },
        Installing::Copy => after_copy(here),
        Installing::MoveOld => Installing::CopyAgain,
        Installing::CopyAgain => after_copy(here),
        Installing::Settings => Installing::SetupDone,
        Installing::SetupDone => Installing::Shortcut,
        Installing::Shortcut => Installing::Entry,
        Installing::Entry => Installing::Done,
        Installing::Done => Installing::Done,
    }
}

/// The entry in the list of apps.
pub open spec fn entry(exe: Seq<char>, dir: Seq<char>, version: Seq<char>, kb: u32) -> Seq<Reg> {
    let key = UNINSTALL@;
    let remove = "\""@ + exe + "\" --uninstall"@;
    seq![
        named(key, "DisplayName"@, "Glint"@),
        named(key, "DisplayIcon"@, "\""@ + exe + "\",0"@),
        named(key, "DisplayVersion"@, version),
        named(key, "Publisher"@, "Glint"@),
        named(key, "InstallLocation"@, dir),
        named(key, "UninstallString"@, remove),
        named(key, "QuietUninstallString"@, remove),
        Reg::SetNumber { key, name: "EstimatedSize"@, value: kb },
        Reg::SetNumber { key, name: "NoModify"@, value: 1 },
        Reg::SetNumber { key, name: "NoRepair"@, value: 1 },
    ]
}

/// The size of the program in kilobytes, as the list of apps wants it.
pub fn kilobytes(size: u64) -> (r: u32)
    ensures
        r == size as int / 1024 % 0x1_0000_0000,
{
    (size / 1024 % 0x1_0000_0000) as u32
}

/// The changes that add the installed program, of this version and size, to the list of apps.
pub fn add_entry(exe: &str, dir: &str, version: &str, size: u64) -> (r: Vec<RegOp>)
    ensures
        regs(r@) == entry(exe@, dir@, version@, (size as int / 1024 % 0x1_0000_0000) as u32),
{
    let icon = cat3("\"", exe, "\",0");
    let remove = cat3("\"", exe, "\" --uninstall");
    let mut v: Vec<RegOp> = Vec::new();
    v.push(crate::assoc::set(UNINSTALL, Some("DisplayName"), "Glint"));
    v.push(crate::assoc::set(UNINSTALL, Some("DisplayIcon"), icon.as_str()));
    v.push(crate::assoc::set(UNINSTALL, Some("DisplayVersion"), version));
    v.push(crate::assoc::set(UNINSTALL, Some("Publisher"), "Glint"));
    v.push(crate::assoc::set(UNINSTALL, Some("InstallLocation"), dir));
    v.push(crate::assoc::set(UNINSTALL, Some("UninstallString"), remove.as_str()));
    v.push(crate::assoc::set(UNINSTALL, Some("QuietUninstallString"), remove.as_str()));
    v.push(set_dword(UNINSTALL, "EstimatedSize", kilobytes(size)));
    v.push(set_dword(UNINSTALL, "NoModify", 1));
    v.push(set_dword(UNINSTALL, "NoRepair", 1));
    assert(regs(v@) =~= entry(exe@, dir@, version@, (size as int / 1024 % 0x1_0000_0000) as u32));
    v
}

/// The resident copy was told to stop, and was looked for so often since: whether to wait for it a moment
/// longer.
pub fn stopping(tried: u32, there: bool) -> (wait: bool)
    ensures
        wait == (there && tried < STOP_TRIES),
        wait <==> there && tried < 50,
{
    there && tried < STOP_TRIES
}

/// A folder that ends in our own two names.
pub open spec fn our_folder(dir: Seq<char>) -> bool {
    ends_in(dir, "Programs"@, "Glint"@)
}

/// What deletes the folder once this process has let go of its program.
pub open spec fn deletion(dir: Seq<char>) -> Seq<char> {
    "ping -n 3 127.0.0.1 >nul & rmdir /s /q \""@ + dir + "\""@
}

/// The command that deletes a folder after uninstalling; only ever our own one, and only where it is there.
pub fn uninstall_script(dir: &str, there: bool) -> (r: Option<String>)
    ensures
        r is Some == (there && our_folder(dir@)),
        r is Some ==> r->0@ == deletion(dir@),
{
    if there && ends_with(dir, "Programs", "Glint") {
        Some(cat3("ping -n 3 127.0.0.1 >nul & rmdir /s /q \"", dir, "\""))
    } else {
        None
    }
}

/// What uninstalling takes back out of the registry: the changes that must not fail, and the entry in the
/// list of apps.
pub fn uninstall(exe: &str, ours: &[bool]) -> (r: (Vec<RegOp>, RegOp))
    requires
        ours@.len() == EXTENSIONS@.len(),
    ensures
        regs(r.0@) == seq![Reg::DeleteValue { key: RUN@, name: "Glint"@ }] + removal(ours@),
        r.1@ == (Reg::DeleteTree { key: UNINSTALL@ }),
{
    let mut v: Vec<RegOp> = Vec::new();
    v.push(set_autostart(false, exe));
    let ghost first = regs(v@);
    assert(first =~= seq![Reg::DeleteValue { key: RUN@, name: "Glint"@ }]);
    let mut rest = set_default(false, exe, ours);
    let ghost all = regs(rest@);
    v.append(&mut rest);
    assert(regs(v@) =~= first + all);
    (v, RegOp::DeleteTree { key: UNINSTALL.to_owned() })
}

proof fn lemma_under_programs(base: Seq<char>)
    ensures
        ({
            let p = inside(base, "Programs"@);
            let x = p.take(p.len() - 8);
            &&& p.len() >= 8
            &&& p == x + "Programs"@
            &&& x.len() == 0 || separator(x.last()) || (x.len() == 2 && drive(x, 0))
            &&& verbatim(p) ==> x.len() > 0 && x.last() == '\\'
        }),
{
    reveal_strlit("Programs");
    reveal_strlit("\\");
    let p = inside(base, "Programs"@);
    let x = p.take(p.len() - 8);
    if verbatim(base) {
        assert(p =~= tidied(base) + "Programs"@);
        assert(x =~= tidied(base));
    } else if base.len() == 0 || separator(base.last()) || (base.len() == 2 && drive(base, 0)) {
        assert(x =~= base);
    } else {
        assert(x =~= base + "\\"@);
    }
    assert(p =~= x + "Programs"@);
    if verbatim(p) && !verbatim(base) {
        if x.len() < 4 {
            assert(p[x.len() as int] == 'P');
        } else if x.len() > 4 {
            assert(base[0] == p[0] && base[1] == p[1] && base[2] == p[2] && base[3] == p[3]);
        } else {
            assert(x.last() == p[3]);
        }
    }
}

/// What comes before our two names.
proof fn lemma_home(base: Seq<char>) -> (y: Seq<char>)
    requires
        prefix_len(inside(base, "Programs"@)) < inside(base, "Programs"@).len() - 8 || !verbatim(
            inside(base, "Programs"@),
        ),
    ensures
        ({
            let h = inside(inside(base, "Programs"@), "Glint"@);
            &&& h == y + "Programs"@ + "\\"@ + "Glint"@
            &&& y.len() == 0 || separates(h, y.last()) || (y.len() == 2 && drive(y, 0) && !verbatim(
                h,
            ))
        }),
{
    reveal_strlit("Programs");
    reveal_strlit("Glint");
    reveal_strlit("\\");
    let p = inside(base, "Programs"@);
    let h = inside(p, "Glint"@);
    lemma_under_programs(base);
    let x = p.take(p.len() - 8);
    if verbatim(p) {
        let q = prefix_len(p);
        lemma_prefix_len(p);
        let a = x.skip(q + 1);
        lemma_squeezed_cat(a, "Programs"@);
        assert(p.skip(q + 1) =~= a + "Programs"@);
        if a.len() > 0 {
            assert(a.last() == x.last());
        }
        let y = p.take(q) + seq!['\\'] + squeezed(a);
        let s = squeezed(a) + "Programs"@;
        assert(s.last() == 's');
        assert(ended(s) =~= s + "\\"@);
        assert(h =~= y + "Programs"@ + "\\"@ + "Glint"@);
        y
    } else {
        assert(p.last() == 's');
        assert(h =~= x + "Programs"@ + "\\"@ + "Glint"@);
        assert(h[0] == p[0] && h[1] == p[1] && h[2] == p[2] && h[3] == p[3]);
        x
    }
}

proof fn lemma_our_names(h: Seq<char>, y: Seq<char>)
    requires
        h == y + "Programs"@ + "\\"@ + "Glint"@,
        names_from(h) <= y.len(),
        names_from(h) == y.len() || (y.len() > 0 && separates(h, y.last())),
    ensures
        our_folder(h),
{
    reveal_strlit("Programs");
    reveal_strlit("Glint");
    reveal_strlit("\\");
    lemma_prefix_len(h);
    let k = y.len() as int;
    let n = h.len() as int;
    assert(n == k + 14);
    assert(h.subrange(k, k + 8) =~= "Programs"@);
    assert(h.subrange(k + 9, n) =~= "Glint"@);
    assert(h[k + 8] == '\\');
    if k > 0 {
        assert(h[k - 1] == y.last());
    }
    assert forall|i: int| k + 9 <= i < n implies !separates(h, #[trigger] h[i]) by {
        assert(h[i] == "Glint"@[i - k - 9]);
    }
    assert forall|i: int| k <= i < k + 8 implies !separates(h, #[trigger] h[i]) by {
        assert(h[i] == "Programs"@[i - k]);
    }
    lemma_name_is(h, k + 9, n);
    lemma_name_is(h, k, k + 8);
    assert(last_name_end(h, n) == n);
    assert(last_name_end(h, k + 8) == k + 8);
}

/// Whatever the user's folders are called, the folder of the installed copy is our own one, as long as
/// the names we give it are not taken for that of a share.
pub proof fn law_home_is_ours(local: Option<Seq<char>>, temp: Seq<char>)
    requires
        ({
            let base = match local {
                Some(l) => l,
                None => temp,
            };
            let p = inside(base, "Programs"@);
            let h = home(local, temp);
            &&& prefix_len(p) < p.len() - 8 || !verbatim(p)
            &&& names_from(h) <= h.len() - 14
        }),
    ensures
        our_folder(home(local, temp)),
{
    reveal_strlit("Programs");
    reveal_strlit("Glint");
    reveal_strlit("\\");
    let base = match local {
        Some(l) => l,
        None => temp,
    };
    let h = home(local, temp);
    let y = lemma_home(base);
    if y.len() == 2 && drive(y, 0) {
        assert(h[0] == y[0] && h[1] == y[1]);
        assert(prefix_len(h) == 2);
    }
    lemma_prefix_len(h);
    lemma_our_names(h, y);
}

/// Everything that adding the program to the list of apps writes, uninstalling removes.
pub proof fn law_entry_undone(exe: Seq<char>, dir: Seq<char>, version: Seq<char>, kb: u32, i: int)
    requires
        0 <= i < entry(exe, dir, version, kb).len(),
    ensures
        undoes(Reg::DeleteTree { key: UNINSTALL@ }, entry(exe, dir, version, kb)[i]),
{
    assert(in_tree(UNINSTALL@, UNINSTALL@));
}

/// How far along an installation a step is.
pub open spec fn stage(at: Installing) -> int {
    match at {
        Installing::Folder => 0,
        Installing::Copy => 1,
        Installing::MoveOld => 2,
        Installing::CopyAgain => 3,
        Installing::Settings => 4,
        Installing::SetupDone => 5,
        Installing::Shortcut => 6,
        Installing::Entry => 7,
        Installing::Done => 8,
    }
}

/// An installation goes on step by step and leaves out only what there is no need for: a program that is
/// in place is not copied, an older copy is moved only where it is in the way, and settings go along only
/// where there are some and the installed copy has none of its own. Without the shortcut and the entry
/// none is done.
pub proof fn law_steps(at: Installing, here: Here)
    ensures
        at != Installing::Done ==> stage(follows(at, here)) > stage(at),
        follows(at, here) == Installing::Copy <==> at == Installing::Folder && !here.in_place,
        follows(at, here) == Installing::CopyAgain <==> at == Installing::MoveOld,
        follows(at, here) != Installing::MoveOld,
        follows(at, here) == Installing::Settings <==> (at == Installing::Copy || at
            == Installing::CopyAgain) && here.settings && !here.kept,
        follows(at, here) == Installing::Shortcut <==> at == Installing::SetupDone,
        follows(at, here) == Installing::Entry <==> at == Installing::Shortcut,
        follows(at, here) == Installing::Done <==> at == Installing::Entry || at == Installing::Done,
{
}

/// A failure names the folder or the program that it is about, and then what went wrong.
pub proof fn law_reported(at: Installing, e: Seq<char>, dir: Seq<char>, target: Seq<char>)
    ensures
        at == Installing::Folder ==> reported(at, e, dir, target) == dir + ": "@ + e,
        at == Installing::MoveOld || at == Installing::CopyAgain ==> reported(at, e, dir, target) == target
            + ": "@ + e,
        at == Installing::Shortcut || at == Installing::Entry ==> reported(at, e, dir, target) == e,
{
}

/// What the list of apps runs to uninstall is the program itself, in quotes, asked to uninstall; its icon
/// is the program's first, and its size and version are those it was installed with.
pub proof fn law_entry(exe: Seq<char>, dir: Seq<char>, version: Seq<char>, kb: u32)
    ensures
        ({
            let r = entry(exe, dir, version, kb);
            let key = UNINSTALL@;
            let run = "\""@ + exe + "\" --uninstall"@;
            &&& r.contains(named(key, "DisplayName"@, "Glint"@))
            &&& r.contains(named(key, "DisplayIcon"@, "\""@ + exe + "\",0"@))
            &&& r.contains(named(key, "DisplayVersion"@, version))
            &&& r.contains(named(key, "InstallLocation"@, dir))
            &&& r.contains(named(key, "UninstallString"@, run))
            &&& r.contains(named(key, "QuietUninstallString"@, run))
            &&& r.contains(Reg::SetNumber { key, name: "EstimatedSize"@, value: kb })
            &&& run.skip(exe.len() as int + 3) == "--uninstall"@
            &&& flag_of(Some("--uninstall"@)) == Flag::Uninstall
        }),
{
    let r = entry(exe, dir, version, kb);
    let run = "\""@ + exe + "\" --uninstall"@;
    reveal_strlit("\"");
    reveal_strlit("\" --uninstall");
    reveal_strlit("--uninstall");
    assert(run.skip(exe.len() as int + 3) =~= "--uninstall"@);
    assert(r[0] == named(UNINSTALL@, "DisplayName"@, "Glint"@));
    assert(r[1] == named(UNINSTALL@, "DisplayIcon"@, "\""@ + exe + "\",0"@));
    assert(r[2] == named(UNINSTALL@, "DisplayVersion"@, version));
    assert(r[4] == named(UNINSTALL@, "InstallLocation"@, dir));
    assert(r[5] == named(UNINSTALL@, "UninstallString"@, run));
    assert(r[6] == named(UNINSTALL@, "QuietUninstallString"@, run));
    assert(r[7] == (Reg::SetNumber { key: UNINSTALL@, name: "EstimatedSize"@, value: kb }));
}

/// What deletes the folder names it, in quotes, at the end; and only ever a folder that ends in our own two
/// names is deleted.
pub proof fn law_deletion(dir: Seq<char>)
    ensures
        ({
            let d = deletion(dir);
            let n = d.len() as int;
            &&& n >= dir.len() + 2
            &&& d[n - 1] == '"' && d[n - 2 - dir.len()] == '"'
            &&& d.subrange(n - 1 - dir.len(), n - 1) == dir
        }),
{
    reveal_strlit("ping -n 3 127.0.0.1 >nul & rmdir /s /q \"");
    reveal_strlit("\"");
    let d = deletion(dir);
    let n = d.len() as int;
    assert(d.subrange(n - 1 - dir.len(), n - 1) =~= dir);
}

} // verus!
