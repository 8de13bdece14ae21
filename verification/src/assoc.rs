//! Installing into Windows: autostart, "Open with", and the default viewer for images.
//!
//! Per user, no admin rights: every key stands under the current user's.
//!
//! The default is set through `UserChoice`, with its hash. Since Windows 8 the choice for an
//! extension is a ProgId and a hash of (extension, user SID, ProgId, the minute it was written, a
//! fixed string from shell32); a key written without the right hash is thrown away and the default
//! reset. It is written only when the user ticks the box, and checked afterwards through the
//! shell's own lookup. If Windows did not take it, Settings opens on our page, where the choice is
//! one click.

use crate::bytes::{bytes32, bytes_of_units, le32, put_u32, u32_at, unit_bytes};
use crate::files::EXTENSIONS;
use crate::launch::{flag_of, Flag};
use crate::md5::{base64, base64_of, digest, md5};
use crate::text::{
    cat2, cat3, chars_of, decimal, decimal_of, encode_utf16, hex, hex_of, is_word,
    law_hex_returns, law_utf16_returns, lemma_utf16_cat, lemma_utf16_short, lower, number, sixteens, utf16, utf16_text,
};
use vstd::prelude::*;

verus! {

pub const PROGID: &'static str = "Glint.Image";

pub const RUN: &'static str = "Software\\Microsoft\\Windows\\CurrentVersion\\Run";

pub const FILE_EXTS: &'static str =
    "Software\\Microsoft\\Windows\\CurrentVersion\\Explorer\\FileExts";

/// The class of the object that Explorer's "open" goes to.
pub const CLSID_STR: &'static str = "{5A2F9C3E-7B41-4D8E-9C6A-1E2B3C4D5F60}";

/// The fixed part of every UserChoice hash, as shell32 carries it.
pub const EXPERIENCE: &'static str =
    "User Choice set via Windows User Experience {D18B6DD5-6124-4341-9318-804003BAFA0B}";

/// A change to the current user's registry.
#[allow(inconsistent_fields)]
pub enum RegOp {
    SetText { key: String, name: Option<String>, value: String },
    SetNumber { key: String, name: String, value: u32 },
    DeleteValue { key: String, name: String },
    DeleteKey { key: String },
    /// The key with everything under it.
    DeleteTree { key: String },
}

/// The same change over what the strings hold.
#[allow(inconsistent_fields)]
pub enum Reg {
    SetText { key: Seq<char>, name: Option<Seq<char>>, value: Seq<char> },
    SetNumber { key: Seq<char>, name: Seq<char>, value: u32 },
    DeleteValue { key: Seq<char>, name: Seq<char> },
    DeleteKey { key: Seq<char> },
    DeleteTree { key: Seq<char> },
}

impl View for RegOp {
    type V = Reg;

    open spec fn view(&self) -> Reg {
        match *self {
            RegOp::SetText { key, name, value } => Reg::SetText {
                key: key@,
                name: match name {
                    Some(n) => Some(n@),
                    None => None,
                },
                value: value@,
            },
            RegOp::SetNumber { key, name, value } => Reg::SetNumber { key: key@, name: name@, value },
            RegOp::DeleteValue { key, name } => Reg::DeleteValue { key: key@, name: name@ },
            RegOp::DeleteKey { key } => Reg::DeleteKey { key: key@ },
            RegOp::DeleteTree { key } => Reg::DeleteTree { key: key@ },
        }
    }
}

/// What a list of changes says.
pub open spec fn regs(v: Seq<RegOp>) -> Seq<Reg> {
    v.map_values(|o: RegOp| o@)
}

/// A named text value.
pub open spec fn named(key: Seq<char>, name: Seq<char>, value: Seq<char>) -> Reg {
    Reg::SetText { key, name: Some(name), value }
}

/// A key's own text value.
pub open spec fn unnamed(key: Seq<char>, value: Seq<char>) -> Reg {
    Reg::SetText { key, name: None, value }
}

pub fn set(key: &str, name: Option<&str>, value: &str) -> (r: RegOp)
    ensures
        r@ == (match name {
            Some(n) => named(key@, n@, value@),
            None => unnamed(key@, value@),
        }),
{
    RegOp::SetText {
        key: key.to_owned(),
        name: match name {
            Some(n) => Some(n.to_owned()),
            None => None,
        },
        value: value.to_owned(),
    }
}

pub fn set_dword(key: &str, name: &str, value: u32) -> (r: RegOp)
    ensures
        r@ == (Reg::SetNumber { key: key@, name: name@, value }),
{
    RegOp::SetNumber { key: key.to_owned(), name: name.to_owned(), value }
}

pub fn delete_value(key: &str, name: &str) -> (r: RegOp)
    ensures
        r@ == (Reg::DeleteValue { key: key@, name: name@ }),
{
    RegOp::DeleteValue { key: key.to_owned(), name: name.to_owned() }
}

fn push(v: &mut Vec<RegOp>, o: RegOp)
    ensures
        regs(final(v)@) == regs(old(v)@).push(o@),
{
    v.push(o);
    assert(regs(v@) =~= regs(old(v)@).push(o@));
}

/// Registry type of a text value.
pub const REG_SZ: u32 = 1;

/// Registry type of a 32-bit number.
pub const REG_DWORD: u32 = 4;

/// The type and the bytes of a value to be written; none for a change that writes no value.
pub fn value_bytes(op: &RegOp) -> (r: Option<(u32, Vec<u8>)>)
    ensures
        match op@ {
            Reg::SetText { value, .. } => r is Some && (r->0).0 == REG_SZ && (r->0).1@ == unit_bytes(
                utf16(value).push(0),
            ),
            Reg::SetNumber { value, .. } => r is Some && (r->0).0 == REG_DWORD && (r->0).1@ == bytes32(
                value,
            ),
            _ => r is None,
        },
{
    match op {
        RegOp::SetText { value, .. } => {
            let mut u = encode_utf16(chars_of(value.as_str()).as_slice());
            u.push(0);
            Some((REG_SZ, bytes_of_units(u.as_slice())))
        },
        RegOp::SetNumber { value, .. } => {
            let mut b: Vec<u8> = Vec::new();
            put_u32(&mut b, *value);
            assert(b@ =~= bytes32(*value));
            Some((REG_DWORD, b))
        },
        _ => None,
    }
}

/// What to say of a write that Windows answered with `code`.
pub fn written(key: &str, code: u32) -> (r: Result<(), String>)
    ensures
        r is Ok <==> code == 0,
        r matches Err(e) ==> e@ == "registry "@ + key@ + ": error "@ + decimal(code as nat),
{
    if code == 0 {
        Ok(())
    } else {
        let d = decimal_of(code as u64);
        let mut s = cat3("registry ", key, ": error ");
        s.append(d.as_str());
        Err(s)
    }
}

/// What reading a text value gave: the code, the buffer, and how many of its bytes were filled,
/// the ending NUL counted.
pub struct Found {
    pub code: u32,
    pub units: Vec<u16>,
    pub bytes: u32,
}

impl Found {
    /// A read that succeeded filled no more than the buffer.
    pub open spec fn valid(self) -> bool {
        self.code == 0 ==> self.bytes / 2 <= self.units@.len()
    }

    /// The units read, without the NUL.
    pub open spec fn text_units(self) -> Seq<u16> {
        self.units@.take(if self.bytes >= 2 {
            self.bytes / 2 - 1
        } else {
            0
        })
    }
}

fn units_before_nul(units: &Vec<u16>, count: usize) -> (r: String)
    requires
        count <= units@.len(),
    ensures
        r@ == utf16_text(units@.take(if count >= 1 { count - 1 } else { 0 })),
{
    let n: usize = if count >= 1 {
        count - 1
    } else {
        0
    };
    let all: &[u16] = units.as_slice();
    let part: &[u16] = &all[0..n];
    assert(part@ =~= units@.take(n as int));
    String::from_utf16_lossy(part)
}

/// A text value as it was read: none where the read failed.
pub fn get(found: &Found) -> (r: Option<String>)
    requires
        found.valid(),
    ensures
        r is Some <==> found.code == 0,
        r matches Some(s) ==> s@ == utf16_text(found.text_units()),
{
    if found.code == 0 {
        Some(units_before_nul(&found.units, found.bytes as usize / 2))
    } else {
        None
    }
}

/// Starting with Windows, from any copy: whether the value under [`RUN`] is there.
pub fn autostart(found: &Found) -> (r: bool)
    requires
        found.valid(),
    ensures
        r == (found.code == 0),
{
    get(found).is_some()
}

/// What Windows runs at login.
pub open spec fn at_login(exe: Seq<char>) -> Seq<char> {
    "\""@ + exe + "\" --background"@
}

/// The change that has `exe` start at login, or no longer.
pub open spec fn autostart_change(on: bool, exe: Seq<char>) -> Reg {
    if on {
        named(RUN@, "Glint"@, at_login(exe))
    } else {
        Reg::DeleteValue { key: RUN@, name: "Glint"@ }
    }
}

/// Start `exe` resident at login, or no longer.
pub fn set_autostart(on: bool, exe: &str) -> (r: RegOp)
    ensures
        r@ == autostart_change(on, exe@),
{
    if on {
        let v = cat3("\"", exe, "\" --background");
        set(RUN, Some("Glint"), v.as_str())
    } else {
        delete_value(RUN, "Glint")
    }
}

/// Whether what the shell opens a `.jpg` with is us: from the answer of its own lookup, the buffer
/// and how much of it was filled, the ending NUL counted.
pub fn is_default(hr: i32, units: &Vec<u16>, len: u32) -> (r: bool)
    requires
        hr >= 0 ==> len <= units@.len(),
    ensures
        r == (hr >= 0 && utf16_text(units@.take(if len >= 1 { len - 1 } else { 0 })) == PROGID@),
{
    if hr >= 0 {
        let s = units_before_nul(units, len as usize);
        is_word(chars_of(s.as_str()).as_slice(), PROGID)
    } else {
        false
    }
}

/// The key of the user's choice for an extension, written with its dot.
pub open spec fn choice_key(ext: Seq<char>) -> Seq<char> {
    FILE_EXTS@ + "\\"@ + ext + "\\UserChoice"@
}

pub fn user_choice_key(ext: &str) -> (r: String)
    ensures
        r@ == choice_key(ext@),
{
    let mut s = cat3(FILE_EXTS, "\\", ext);
    s.append("\\UserChoice");
    s
}

/// An extension with its dot.
pub open spec fn dotted(i: int) -> Seq<char> {
    "."@ + EXTENSIONS@[i]@
}

pub open spec fn classes_key() -> Seq<char> {
    "Software\\Classes\\"@ + PROGID@
}

pub open spec fn clsid_key() -> Seq<char> {
    "Software\\Classes\\CLSID\\"@ + CLSID_STR@
}

pub open spec fn exe_key() -> Seq<char> {
    "Software\\Classes\\Applications\\glint.exe"@
}

pub open spec fn caps_key() -> Seq<char> {
    "Software\\Glint"@ + "\\Capabilities"@
}

pub open spec fn open_with_key(i: int) -> Seq<char> {
    "Software\\Classes\\"@ + dotted(i) + "\\OpenWithProgids"@
}

fn dotted_ext(i: usize) -> (r: String)
    requires
        i < 20,
    ensures
        r@ == dotted(i as int),
{
    cat2(".", EXTENSIONS[i])
}

fn open_with(i: usize) -> (r: String)
    requires
        i < 20,
    ensures
        r@ == open_with_key(i as int),
{
    let e = dotted_ext(i);
    cat3("Software\\Classes\\", e.as_str(), "\\OpenWithProgids")
}

/// The two values of each of the first `n` extensions.
pub open spec fn extension_ops(n: nat) -> Seq<Reg>
    decreases n,
{
    if n == 0 {
        seq![]
    } else {
        extension_ops((n - 1) as nat).push(named(open_with_key(n - 1), PROGID@, ""@)).push(
            named(caps_key() + "\\FileAssociations"@, dotted(n - 1), PROGID@),
        )
    }
}

/// What registering the program writes.
pub open spec fn registration(exe: Seq<char>) -> Seq<Reg> {
    let quoted = "\""@ + exe + "\""@;
    let open = quoted + " \"%1\""@;
    let command = "\\shell\\open\\command"@;
    seq![
        unnamed(classes_key(), "Image"@),
        unnamed(classes_key() + "\\DefaultIcon"@, quoted + ",0"@),
        unnamed(classes_key() + command, open),
        unnamed(clsid_key(), "Glint open"@),
        unnamed(clsid_key() + "\\LocalServer32"@, quoted),
        named(classes_key() + command, "DelegateExecute"@, CLSID_STR@),
        unnamed(exe_key() + command, open),
        named(caps_key(), "ApplicationName"@, "Glint"@),
        named(caps_key(), "ApplicationDescription"@, "Fast image viewer"@),
    ] + extension_ops(20) + seq![
        named("Software\\RegisteredApplications"@, "Glint"@, caps_key()),
    ]
}

/// Of the first `n` extensions, the choices that are ours.
pub open spec fn choice_deletes(ours: Seq<bool>, n: nat) -> Seq<Reg>
    decreases n,
{
    if n == 0 {
        seq![]
    } else {
        let before = choice_deletes(ours, (n - 1) as nat);
        if ours[n - 1] {
            before.push(Reg::DeleteKey { key: choice_key(dotted(n - 1)) })
        } else {
            before
        }
    }
}

pub open spec fn open_with_deletes(n: nat) -> Seq<Reg>
    decreases n,
{
    if n == 0 {
        seq![]
    } else {
        open_with_deletes((n - 1) as nat).push(
            Reg::DeleteValue { key: open_with_key(n - 1), name: PROGID@ },
        )
    }
}

/// What taking the program out removes.
pub open spec fn removal(ours: Seq<bool>) -> Seq<Reg> {
    choice_deletes(ours, 20) + seq![
        Reg::DeleteTree { key: classes_key() },
        Reg::DeleteTree { key: exe_key() },
        Reg::DeleteTree { key: "Software\\Glint"@ },
        Reg::DeleteTree { key: clsid_key() },
    ] + open_with_deletes(20) + seq![
        Reg::DeleteValue { key: "Software\\RegisteredApplications"@, name: "Glint"@ },
    ]
}

/// Whether the ProgId found under a choice is ours.
pub fn is_ours(progid: Option<&str>) -> (r: bool)
    ensures
        r == (progid is Some && progid->0@ == PROGID@),
{
    match progid {
        Some(p) => is_word(chars_of(p).as_slice(), PROGID),
        None => false,
    }
}

fn registering(exe: &str) -> (v: Vec<RegOp>)
    ensures
        regs(v@) == registration(exe@),
{
    let quoted = cat3("\"", exe, "\"");
    let open = cat2(quoted.as_str(), " \"%1\"");
    let icon = cat2(quoted.as_str(), ",0");
    let classes = cat2("Software\\Classes\\", PROGID);
    let clsid = cat2("Software\\Classes\\CLSID\\", CLSID_STR);
    let caps = cat2("Software\\Glint", "\\Capabilities");
    let classes_command = cat2(classes.as_str(), "\\shell\\open\\command");
    let classes_icon = cat2(classes.as_str(), "\\DefaultIcon");
    let server = cat2(clsid.as_str(), "\\LocalServer32");
    let exe_command = cat2("Software\\Classes\\Applications\\glint.exe", "\\shell\\open\\command");
    let kinds = cat2(caps.as_str(), "\\FileAssociations");
    let mut v: Vec<RegOp> = Vec::new();
    assert(regs(v@) =~= seq![]);
    push(&mut v, set(classes.as_str(), None, "Image"));
    push(&mut v, set(classes_icon.as_str(), None, icon.as_str()));
    push(&mut v, set(classes_command.as_str(), None, open.as_str()));
    push(&mut v, set(clsid.as_str(), None, "Glint open"));
    push(&mut v, set(server.as_str(), None, quoted.as_str()));
    push(&mut v, set(classes_command.as_str(), Some("DelegateExecute"), CLSID_STR));
    push(&mut v, set(exe_command.as_str(), None, open.as_str()));
    push(&mut v, set(caps.as_str(), Some("ApplicationName"), "Glint"));
    push(&mut v, set(caps.as_str(), Some("ApplicationDescription"), "Fast image viewer"));
    let ghost head = regs(v@);
    assert(head + extension_ops(0) =~= head);
    for i in 0..20usize
        invariant
            regs(v@) == head + extension_ops(i as nat),
            kinds@ == caps_key() + "\\FileAssociations"@,
    {
        let ghost before = regs(v@);
        let e = dotted_ext(i);
        let k = open_with(i);
        push(&mut v, set(k.as_str(), Some(PROGID), ""));
        push(&mut v, set(kinds.as_str(), Some(e.as_str()), PROGID));
        assert(regs(v@) =~= head + extension_ops((i + 1) as nat));
    }
    push(&mut v, set("Software\\RegisteredApplications", Some("Glint"), caps.as_str()));
    assert(regs(v@) =~= registration(exe@));
    v
}

fn removing(ours: &[bool]) -> (v: Vec<RegOp>)
    requires
        ours@.len() == 20,
    ensures
        regs(v@) == removal(ours@),
{
    let mut v: Vec<RegOp> = Vec::new();
    assert(regs(v@) =~= choice_deletes(ours@, 0));
    for i in 0..20usize
        invariant
            ours@.len() == 20,
            regs(v@) == choice_deletes(ours@, i as nat),
    {
        if ours[i] {
            let e = dotted_ext(i);
            push(&mut v, RegOp::DeleteKey { key: user_choice_key(e.as_str()) });
        }
    }
    push(&mut v, RegOp::DeleteTree { key: cat2("Software\\Classes\\", PROGID) });
    push(
        &mut v,
        RegOp::DeleteTree { key: "Software\\Classes\\Applications\\glint.exe".to_owned() },
    );
    push(&mut v, RegOp::DeleteTree { key: "Software\\Glint".to_owned() });
    push(&mut v, RegOp::DeleteTree { key: cat2("Software\\Classes\\CLSID\\", CLSID_STR) });
    let ghost head = regs(v@);
    assert(head + open_with_deletes(0) =~= head);
    for i in 0..20usize
        invariant
            regs(v@) == head + open_with_deletes(i as nat),
    {
        let k = open_with(i);
        push(&mut v, delete_value(k.as_str(), PROGID));
        assert(regs(v@) =~= head + open_with_deletes((i + 1) as nat));
    }
    push(&mut v, delete_value("Software\\RegisteredApplications", "Glint"));
    assert(regs(v@) =~= removal(ours@));
    v
}

/// What making changes one after another does next.
pub enum Applying {
    /// Make the change of this number.
    Write(usize),
    Done(Result<(), String>),
}

/// `n` changes are made in turn, of which the last so far went so: the first that fails ends it, and
/// is what it came to.
pub open spec fn next_write(n: usize, last: Option<(usize, Result<(), String>)>) -> Applying {
    match last {
        Some((_, Err(e))) => Applying::Done(Err(e)),
        Some((i, Ok(_))) => if i + 1 < n {
            Applying::Write((i + 1) as usize)
        } else {
            Applying::Done(Ok(()))
        },
        None => if n > 0 {
            Applying::Write(0)
        } else {
            Applying::Done(Ok(()))
        },
    }
}

/// The next of `n` changes, after the last one made and what came of it.
pub fn applying(n: usize, last: Option<(usize, Result<(), String>)>) -> (r: Applying)
    ensures
        r == next_write(n, last),
{
    match last {
        Some((i, out)) => match out {
            Err(e) => Applying::Done(Err(e)),
            Ok(_) => if n > 0 && i < n - 1 {
                Applying::Write(i + 1)
            } else {
                Applying::Done(Ok(()))
            },
        },
        None => if n > 0 {
            Applying::Write(0)
        } else {
            Applying::Done(Ok(()))
        },
    }
}

/// How many changes were made, up to the last one.
pub open spec fn made_up_to(last: Option<(usize, Result<(), String>)>) -> int {
    match last {
        Some((i, _)) => i + 1,
        None => 0,
    }
}

/// What `n` changes come to from there on, and how many of them were made: `outs` is what comes of
/// each.
pub open spec fn all_applied(
    n: usize,
    outs: Seq<Result<(), String>>,
    last: Option<(usize, Result<(), String>)>,
) -> (Result<(), String>, int)
    decreases (if made_up_to(last) < n {
        n - made_up_to(last)
    } else {
        0
    }),
{
    match next_write(n, last) {
        Applying::Done(r) => (r, made_up_to(last)),
        Applying::Write(i) => all_applied(n, outs, Some((i, outs[i as int]))),
    }
}

proof fn lemma_applied(
    n: usize,
    outs: Seq<Result<(), String>>,
    last: Option<(usize, Result<(), String>)>,
    k: int,
)
    requires
        last matches Some((i, out)) ==> out == outs[i as int],
        0 <= made_up_to(last) <= k <= n,
        n == outs.len(),
        forall|j: int| 0 <= j < k ==> #[trigger] outs[j] is Ok,
        k < n ==> outs[k] is Err,
    ensures
        all_applied(n, outs, last) == (if k < n {
            (Err(outs[k]->Err_0), k + 1)
        } else {
            (Ok(()), n as int)
        }),
    decreases k - made_up_to(last),
{
    let m = made_up_to(last);
    if last is Some {
        assert(outs[m - 1] is Ok);
    }
    if m < k {
        lemma_applied(n, outs, Some((m as usize, outs[m])), k);
    } else if m < n {
        reveal_with_fuel(all_applied, 2);
    }
}

/// Of changes made one after another the first that fails, change `k`, is what they come to, and
/// nothing after it is made; with none that fails all are made.
pub proof fn law_first_failure_ends(n: usize, outs: Seq<Result<(), String>>, k: int)
    requires
        n == outs.len(),
        0 <= k <= n,
        forall|j: int| 0 <= j < k ==> #[trigger] outs[j] is Ok,
        k < n ==> outs[k] is Err,
    ensures
        k < n ==> all_applied(n, outs, None) == (Err::<(), String>(outs[k]->Err_0), k + 1),
        k == n ==> all_applied(n, outs, None) == (Ok::<(), String>(()), n as int),
{
    lemma_applied(n, outs, None, k);
}

/// The changes that register the ProgId and "Open with" entries, or that take them out; `ours`
/// says for each extension whether the user's choice is ours. Registering stops at the first
/// change that fails ([`make_default`]); of taking out none can fail.
pub fn set_default(on: bool, exe: &str, ours: &[bool]) -> (r: Vec<RegOp>)
    requires
        ours@.len() == EXTENSIONS@.len(),
    ensures
        regs(r@) == (if on {
            registration(exe@)
        } else {
            removal(ours@)
        }),
{
    if on {
        registering(exe)
    } else {
        removing(ours)
    }
}

/// A key is the root of a tree of keys, or in it.
pub open spec fn in_tree(key: Seq<char>, root: Seq<char>) -> bool {
    root.is_prefix_of(key) && (key.len() == root.len() || key[root.len() as int] == '\\')
}

/// Whether a removal takes a value out: the value itself goes, or a tree its key is in.
pub open spec fn takes_out(gone: Reg, key: Seq<char>, name: Option<Seq<char>>) -> bool {
    match gone {
        Reg::DeleteValue { key: k, name: n } => k == key && name == Some(n),
        Reg::DeleteTree { key: k } => in_tree(key, k),
        _ => false,
    }
}

/// Whether a removal undoes a write.
pub open spec fn undoes(gone: Reg, op: Reg) -> bool {
    match op {
        Reg::SetText { key, name, .. } => takes_out(gone, key, name),
        Reg::SetNumber { key, name, .. } => takes_out(gone, key, Some(name)),
        _ => false,
    }
}

/// A value of the registry: a text as its units, the ending NUL with them, or a number.
pub enum Kept {
    Text(Seq<u16>),
    Number(u32),
}

/// The values of the registry, by their key and their name.
pub type Registry = Map<(Seq<char>, Option<Seq<char>>), Kept>;

/// The values of a key are gone with it; a key with others under it stays.
pub open spec fn key_goes(m: Registry, key: Seq<char>, k: Seq<char>) -> bool {
    k == key && forall|o: (Seq<char>, Option<Seq<char>>)| #[trigger]
        m.contains_key(o) ==> o.0 == key || !in_tree(o.0, key)
}

/// The registry after a change.
pub open spec fn changed(m: Registry, op: Reg) -> Registry {
    match op {
        Reg::SetText { key, name, value } => m.insert(
            (key, name),
            Kept::Text(utf16(value).push(0)),
        ),
        Reg::SetNumber { key, name, value } => m.insert((key, Some(name)), Kept::Number(value)),
        Reg::DeleteKey { key } => m.restrict(
            Set::new(|k: (Seq<char>, Option<Seq<char>>)| !key_goes(m, key, k.0)),
        ),
        _ => m.restrict(
            Set::new(|k: (Seq<char>, Option<Seq<char>>)| !takes_out(op, k.0, k.1)),
        ),
    }
}

/// What reading a text into a buffer gives: its units, where it is there, is a text and fits.
pub open spec fn read(m: Registry, key: Seq<char>, name: Seq<char>, found: Found) -> bool {
    let at = (key, Some(name));
    if m.contains_key(at) && m[at] is Text && m[at]->Text_0.len() <= found.units@.len() {
        let u = m[at]->Text_0;
        &&& found.code == 0
        &&& found.bytes == 2 * u.len()
        &&& found.units@.take(u.len() as int) == u
    } else {
        found.code != 0
    }
}

/// How many units a value is read into.
pub const READ_UNITS: usize = 512;

/// Reading gives back what was written: after starting at login was set, it is found set, with
/// the program it was set for; after it was taken out, for whichever program, it is found so. A
/// path so long that the line does not fit the buffer is not read back.
pub proof fn law_autostart_returns(m: Registry, on: bool, exe: Seq<char>, found: Found)
    requires
        found.units@.len() == READ_UNITS,
        read(changed(m, autostart_change(on, exe)), RUN@, "Glint"@, found),
        on ==> utf16(exe).len() <= READ_UNITS - 16,
    ensures
        found.valid(),
        (found.code == 0) == on,
        on ==> utf16_text(found.text_units()) == at_login(exe),
{
    if on {
        let line = at_login(exe);
        reveal_strlit("\"");
        reveal_strlit("\" --background");
        lemma_utf16_cat("\""@ + exe, "\" --background"@);
        lemma_utf16_cat("\""@, exe);
        lemma_utf16_short("\""@);
        lemma_utf16_short("\" --background"@);
        let u = utf16(line).push(0);
        assert(u.len() <= READ_UNITS);
        law_utf16_returns(line);
        assert(found.text_units() =~= utf16(line)) by {
            assert forall|i: int| 0 <= i < utf16(line).len() implies found.units@[i] == #[trigger] utf16(
                line,
            )[i] by {
                assert(found.units@.take(u.len() as int)[i] == u[i]);
            }
        }
    }
}

proof fn lemma_extension_ops(n: nat, i: int)
    requires
        0 <= i < extension_ops(n).len(),
    ensures
        extension_ops(n).len() == 2 * n,
        extension_ops(n)[i] == if i % 2 == 0 {
            named(open_with_key(i / 2), PROGID@, ""@)
        } else {
            named(caps_key() + "\\FileAssociations"@, dotted(i / 2), PROGID@)
        },
    decreases n,
{
    if n > 0 {
        let before = extension_ops((n - 1) as nat);
        if before.len() > 0 {
            lemma_extension_ops((n - 1) as nat, 0);
        }
        if i < before.len() {
            lemma_extension_ops((n - 1) as nat, i);
        }
    }
}

proof fn lemma_open_with_deletes(n: nat, i: int)
    requires
        0 <= i < n,
    ensures
        open_with_deletes(n).len() == n,
        open_with_deletes(n)[i] == (Reg::DeleteValue { key: open_with_key(i), name: PROGID@ }),
    decreases n,
{
    let before = open_with_deletes((n - 1) as nat);
    if n > 1 {
        lemma_open_with_deletes((n - 1) as nat, if i < n - 1 {
            i
        } else {
            0
        });
    } else {
        assert(before.len() == 0);
    }
}

/// Everything that registering writes, taking out removes.
pub proof fn law_removal_undoes(exe: Seq<char>, ours: Seq<bool>, i: int)
    requires
        0 <= i < registration(exe).len(),
    ensures
        exists|j: int|
            0 <= j < removal(ours).len() && undoes(#[trigger] removal(ours)[j], registration(exe)[i]),
{
    let gone = removal(ours);
    let op = registration(exe)[i];
    let k = choice_deletes(ours, 20).len() as int;
    lemma_open_with_deletes(20, 0);
    assert(gone[k] == (Reg::DeleteTree { key: classes_key() }));
    assert(gone[k + 1] == (Reg::DeleteTree { key: exe_key() }));
    assert(gone[k + 2] == (Reg::DeleteTree { key: "Software\\Glint"@ }));
    assert(gone[k + 3] == (Reg::DeleteTree { key: clsid_key() }));
    assert(gone[k + 24] == (Reg::DeleteValue {
        key: "Software\\RegisteredApplications"@,
        name: "Glint"@,
    }));
    reveal_with_fuel(extension_ops, 2);
    lemma_extension_ops(20, 0);
    reveal_strlit("\\DefaultIcon");
    reveal_strlit("\\shell\\open\\command");
    reveal_strlit("\\LocalServer32");
    reveal_strlit("\\Capabilities");
    assert forall|t: Seq<char>, s: Seq<char>|
        s.len() > 0 && s[0] == '\\' implies #[trigger] in_tree(t + s, t) by {
        assert((t + s).take(t.len() as int) =~= t);
    }
    assert forall|t: Seq<char>| #[trigger] in_tree(t, t) by {}
    if i < 9 {
        if i < 3 || i == 5 {
            assert(undoes(gone[k], op));
        } else if i == 3 || i == 4 {
            assert(undoes(gone[k + 3], op));
        } else if i == 6 {
            assert(undoes(gone[k + 1], op));
        } else {
            assert(in_tree("Software\\Glint"@ + "\\Capabilities"@, "Software\\Glint"@));
            assert(undoes(gone[k + 2], op));
        }
    } else if i < 49 {
        lemma_extension_ops(20, i - 9);
        if (i - 9) % 2 == 0 {
            lemma_open_with_deletes(20, (i - 9) / 2);
            assert(gone[k + 4 + (i - 9) / 2] == open_with_deletes(20)[(i - 9) / 2]);
            assert(undoes(gone[k + 4 + (i - 9) / 2], op));
        } else {
            let a = "Software\\Glint"@;
            let key = caps_key() + "\\FileAssociations"@;
            assert(key =~= a + ("\\Capabilities"@ + "\\FileAssociations"@));
            assert(in_tree(key, a));
            assert(undoes(gone[k + 2], op));
        }
    } else {
        assert(undoes(gone[k + 24], op));
    }
}

/// A choice of the user's that is ours goes too, and no other.
pub proof fn law_only_our_choices_go(ours: Seq<bool>, n: nat)
    requires
        n <= ours.len(),
    ensures
        forall|i: int|
            0 <= i < n && #[trigger] ours[i] ==> choice_deletes(ours, n).contains(
                Reg::DeleteKey { key: choice_key(dotted(i)) },
            ),
        forall|j: int|
            0 <= j < choice_deletes(ours, n).len() ==> exists|i: int|
                0 <= i < n && #[trigger] ours[i] && #[trigger] choice_deletes(ours, n)[j] == (
                Reg::DeleteKey { key: choice_key(dotted(i)) }),
    decreases n,
{
    if n > 0 {
        let m = (n - 1) as nat;
        law_only_our_choices_go(ours, m);
        let was = choice_deletes(ours, m);
        let now = choice_deletes(ours, n);
        assert forall|i: int| 0 <= i < n && #[trigger] ours[i] implies now.contains(
            Reg::DeleteKey { key: choice_key(dotted(i)) },
        ) by {
            let want = Reg::DeleteKey { key: choice_key(dotted(i)) };
            if i < m {
                assert(was.contains(want));
                let j = choose|j: int| 0 <= j < was.len() && was[j] == want;
                assert(now[j] == want);
            } else {
                assert(now.last() == want);
            }
        }
        assert forall|j: int| 0 <= j < now.len() implies exists|i: int|
            0 <= i < n && #[trigger] ours[i] && #[trigger] now[j] == (Reg::DeleteKey {
                key: choice_key(dotted(i)),
            }) by {
            if j < was.len() {
                assert(was[j] == now[j]);
            } else {
                assert(ours[n - 1]);
            }
        }
    }
}

/// What comes next once the program is registered.
#[derive(Clone, Copy, PartialEq, Eq, Structural)]
pub enum Choosing {
    /// Write the choice of every extension, tell the shell, and check.
    Write,
    /// Windows took the default.
    Taken,
    /// Windows would not take it: its own page, on our entry.
    Page,
}

/// `tries` rounds of writing were checked, the last with the answer `taken`. The hash holds the
/// minute of writing: written across a minute's turn it would be wrong, so a failed check is tried
/// once more. Without the user's SID there is no hash to write.
pub fn choosing(sid_known: bool, tries: u8, taken: bool) -> (r: Choosing)
    ensures
        r == Choosing::Taken <==> sid_known && tries > 0 && taken,
        r == Choosing::Write <==> sid_known && tries < 2 && !(tries > 0 && taken),
        r == Choosing::Page <==> !sid_known || (tries >= 2 && !taken),
{
    if !sid_known {
        Choosing::Page
    } else if tries > 0 && taken {
        Choosing::Taken
    } else if tries < 2 {
        Choosing::Write
    } else {
        Choosing::Page
    }
}

/// What was last done to make the program the default.
pub enum Did {
    Nothing,
    /// A change of the registration, and what came of it.
    Registered(usize, Result<(), String>),
    /// So many rounds of choices were written and checked, the last with this answer.
    Chose { rounds: u8, taken: bool },
    /// The page of Settings was opened.
    Paged,
}

/// What is next.
pub enum Making {
    /// Make this change of the registration.
    Register(usize),
    /// Write the choice of every extension, tell the shell, and check.
    Choose,
    /// Open the page of Settings.
    Page,
    /// Whether Windows took the default, or why it could not be tried.
    Answer(Result<bool, String>),
}

/// What follows so many rounds of choices, as [`choosing`] has it.
pub open spec fn chosen(sid_known: bool, rounds: u8, taken: bool) -> Making {
    if !sid_known {
        Making::Page
    } else if rounds > 0 && taken {
        Making::Answer(Ok(true))
    } else if rounds < 2 {
        Making::Choose
    } else {
        Making::Page
    }
}

/// What making the program the default does next: a registration of `n` changes, then the choices.
pub open spec fn next_to_make(n: usize, sid_known: bool, did: Did) -> Making {
    let registration = match did {
        Did::Registered(i, out) => next_write(n, Some((i, out))),
        _ => next_write(n, None),
    };
    match did {
        Did::Chose { rounds, taken } => chosen(sid_known, rounds, taken),
        Did::Paged => Making::Answer(Ok(false)),
        _ => match registration {
            Applying::Write(i) => Making::Register(i),
            Applying::Done(Err(e)) => Making::Answer(Err(e)),
            Applying::Done(Ok(_)) => chosen(sid_known, 0, false),
        },
    }
}

fn picked(sid_known: bool, rounds: u8, taken: bool) -> (r: Making)
    ensures
        r == chosen(sid_known, rounds, taken),
{
    match choosing(sid_known, rounds, taken) {
        Choosing::Write => Making::Choose,
        Choosing::Taken => Making::Answer(Ok(true)),
        Choosing::Page => Making::Page,
    }
}

/// The next step of making the program the default, after the last: every change of the
/// registration, the first failure being the answer; then the choices, which are checked and not
/// taken for granted.
pub fn make_default(n: usize, sid_known: bool, did: Did) -> (r: Making)
    ensures
        r == next_to_make(n, sid_known, did),
{
    let registration = match did {
        Did::Chose { rounds, taken } => {
            return picked(sid_known, rounds, taken);
        },
        Did::Paged => {
            return Making::Answer(Ok(false));
        },
        Did::Registered(i, out) => applying(n, Some((i, out))),
        Did::Nothing => applying(n, None),
    };
    match registration {
        Applying::Write(i) => Making::Register(i),
        Applying::Done(Err(e)) => Making::Answer(Err(e)),
        Applying::Done(Ok(_)) => picked(sid_known, 0, false),
    }
}

/// What making the program the default came to.
pub struct Made {
    pub answer: Result<bool, String>,
    /// How many changes of the registration were made.
    pub registered: int,
    /// How many rounds of choices were written.
    pub rounds: int,
    /// The page of Settings was opened.
    pub page: bool,
}

/// What making the program the default comes to from there on: `outs` is what comes of each change of
/// the registration, `asked` what the shell answers after each round.
pub open spec fn default_made(
    n: usize,
    sid_known: bool,
    outs: Seq<Result<(), String>>,
    asked: Seq<bool>,
    did: Did,
    so_far: Made,
) -> Made
    decreases
            (match did {
                Did::Nothing => n + 9,
                Did::Registered(i, _) => if i < n {
                    n - i + 6
                } else {
                    5
                },
                Did::Chose { rounds, .. } => if rounds < 2 {
                    4 - rounds
                } else {
                    2
                },
                Did::Paged => 0,
            }),
{
    match next_to_make(n, sid_known, did) {
        Making::Register(i) => default_made(
            n,
            sid_known,
            outs,
            asked,
            Did::Registered(i, outs[i as int]),
            Made { registered: i + 1, ..so_far },
        ),
        Making::Choose => {
            let rounds: u8 = match did {
                Did::Chose { rounds, .. } => (rounds + 1) as u8,
                _ => 1,
            };
            default_made(
                n,
                sid_known,
                outs,
                asked,
                Did::Chose { rounds, taken: asked[rounds - 1] },
                Made { rounds: rounds as int, ..so_far },
            )
        },
        Making::Page => default_made(
            n,
            sid_known,
            outs,
            asked,
            Did::Paged,
            Made { page: true, ..so_far },
        ),
        Making::Answer(a) => Made { answer: a, ..so_far },
    }
}

pub open spec fn nothing_made() -> Made {
    Made { answer: Ok(false), registered: 0, rounds: 0, page: false }
}

proof fn lemma_registered(
    n: usize,
    sid_known: bool,
    outs: Seq<Result<(), String>>,
    asked: Seq<bool>,
    did: Did,
    so_far: Made,
    k: int,
)
    requires
        0 < n == outs.len(),
        asked.len() == 2,
        did is Nothing || (did is Registered && did->Registered_0 < n && did->Registered_1
            == outs[did->Registered_0 as int]),
        so_far.registered == (if did is Nothing {
            0
        } else {
            did->Registered_0 + 1
        }),
        so_far.rounds == 0 && !so_far.page,
        so_far.registered <= k <= n,
        forall|j: int| 0 <= j < k ==> #[trigger] outs[j] is Ok,
        k < n ==> outs[k] is Err,
    ensures
        ({
            let m = default_made(n, sid_known, outs, asked, did, so_far);
            &&& k < n ==> m == (Made {
                answer: Err(outs[k]->Err_0),
                registered: k + 1,
                rounds: 0,
                page: false,
            })
            &&& k == n ==> m == (Made {
                answer: Ok(sid_known && (asked[0] || asked[1])),
                registered: n as int,
                rounds: if !sid_known {
                    0
                } else if asked[0] {
                    1
                } else {
                    2
                },
                page: !(sid_known && (asked[0] || asked[1])),
            })
        }),
    decreases k - so_far.registered,
{
    let m = so_far.registered;
    if did is Registered {
        assert(outs[m - 1] is Ok);
    }
    if m < k {
        lemma_registered(
            n,
            sid_known,
            outs,
            asked,
            Did::Registered(m as usize, outs[m]),
            Made { registered: m + 1, ..so_far },
            k,
        );
    } else {
        reveal_with_fuel(default_made, 5);
    }
}

/// Making the program the default: the first change of the registration that fails, change `k`, is
/// the answer, with nothing made after it. Where none fails, the answer is yes just where the user's
/// SID is known and the shell answered yes after one of at most two rounds of choices; else it is no,
/// and the page of Settings is open.
pub proof fn law_default_is_checked(
    n: usize,
    sid_known: bool,
    outs: Seq<Result<(), String>>,
    asked: Seq<bool>,
    k: int,
)
    requires
        0 < n == outs.len(),
        asked.len() == 2,
        0 <= k <= n,
        forall|j: int| 0 <= j < k ==> #[trigger] outs[j] is Ok,
        k < n ==> outs[k] is Err,
    ensures
        ({
            let m = default_made(n, sid_known, outs, asked, Did::Nothing, nothing_made());
            &&& k < n ==> m.answer == Err::<bool, String>(outs[k]->Err_0) && m.registered == k + 1
                && m.rounds == 0 && !m.page
            &&& k == n ==> {
                let taken = sid_known && (asked[0] || asked[1]);
                &&& m.answer == Ok::<bool, String>(taken)
                &&& m.registered == n
                &&& m.rounds <= 2
                &&& m.page == !taken
            }
        }),
{
    lemma_registered(n, sid_known, outs, asked, Did::Nothing, nothing_made(), k);
}

/// The page of Settings where the choice is one click.
pub const SETTINGS_PAGE: &'static str = "ms-settings:defaultapps?registeredAppUser=Glint";

/// The text whose hash names a choice.
pub open spec fn choice_base(ext: Seq<char>, sid: Seq<char>, time: u64) -> Seq<char> {
    lower(ext + sid + PROGID@ + minute_text(time) + EXPERIENCE@)
}

/// Make us the choice for an extension. The old key is deleted, not overwritten: Windows puts a
/// deny-set-value rule on it, and its being gone already is fine. The other two stop at a failure.
pub fn write_user_choice(ext: &str, sid: &str, time: u64) -> (r: Vec<RegOp>)
    ensures
        regs(r@) == seq![
            Reg::DeleteKey { key: choice_key(ext@) },
            named(choice_key(ext@), "ProgId"@, PROGID@),
            named(choice_key(ext@), "Hash"@, choice_hash(choice_base(ext@, sid@, time))),
        ],
{
    let key = user_choice_key(ext);
    let when = minute(time);
    let mut base = cat3(ext, sid, PROGID);
    base.append(when.as_str());
    base.append(EXPERIENCE);
    let base = base.as_str().to_lowercase();
    let hash = user_choice_hash(base.as_str());
    let mut v: Vec<RegOp> = Vec::new();
    assert(regs(v@) =~= seq![]);
    let op = set(key.as_str(), Some("ProgId"), PROGID);
    let last = set(key.as_str(), Some("Hash"), hash.as_str());
    push(&mut v, RegOp::DeleteKey { key });
    push(&mut v, op);
    push(&mut v, last);
    v
}

/// The user's SID, lower case, as the hash takes it.
pub fn user_sid(units: &[u16]) -> (r: String)
    ensures
        r@ == lower(utf16_text(units@)),
{
    let s = String::from_utf16_lossy(units);
    s.as_str().to_lowercase()
}

/// A moment (in 100 ns) cut to its minute, in hex: the moment the hash names.
pub open spec fn minute_text(time: u64) -> Seq<char> {
    let t = (time - time % 600_000_000) as nat;
    hex(t / 0x1_0000_0000, 8, false) + hex(t % 0x1_0000_0000, 8, false)
}

pub fn minute(time: u64) -> (r: String)
    ensures
        r@ == minute_text(time),
{
    let t: u64 = time - time % 600_000_000;
    let a = hex_of(t / 0x1_0000_0000, 8, false);
    let b = hex_of(t % 0x1_0000_0000, 8, false);
    cat2(a.as_str(), b.as_str())
}

/// Two moments of one minute have one text.
pub proof fn law_one_text_a_minute(a: u64, b: u64)
    requires
        a / 600_000_000 == b / 600_000_000,
    ensures
        minute_text(a) == minute_text(b),
{
}

/// What a round of the hash carries from one step to the next.
#[derive(Clone, Copy)]
pub struct Carry {
    pub out1: u32,
    pub out2: u32,
}

/// The four bytes at `i` as a number, zero where the data ends before them.
pub open spec fn word_at(data: Seq<u8>, i: int) -> u32 {
    if i + 4 <= data.len() {
        le32(data, i)
    } else {
        0
    }
}

fn word(data: &[u8], i: usize) -> (r: u32)
    ensures
        r == word_at(data@, i as int),
{
    let n: usize = data.len();
    if n >= 4 && i <= n - 4 {
        u32_at(data, i)
    } else {
        0
    }
}

/// `a * x + b * (x's high half)`, in 32 bits.
pub open spec fn plus_high(a: u32, x: u32, b: u32) -> u32 {
    a.wrapping_mul(x).wrapping_add(b.wrapping_mul(x / 0x1_0000))
}

/// `a * x - b * (x's high half)`, in 32 bits.
pub open spec fn less_high(a: u32, x: u32, b: u32) -> u32 {
    a.wrapping_mul(x).wrapping_sub(b.wrapping_mul(x / 0x1_0000))
}

fn add_high(a: u32, x: u32, b: u32) -> (r: u32)
    ensures
        r == plus_high(a, x, b),
{
    a.wrapping_mul(x).wrapping_add(b.wrapping_mul(x / 0x1_0000))
}

fn sub_high(a: u32, x: u32, b: u32) -> (r: u32)
    ensures
        r == less_high(a, x, b),
{
    a.wrapping_mul(x).wrapping_sub(b.wrapping_mul(x / 0x1_0000))
}

/// A step of the first round: `m0` and `m1` are the key, `a` and `b` the next two words.
#[verifier::opaque]
pub open spec fn first_step(c: Carry, m0: u32, m1: u32, a: u32, b: u32) -> Carry {
    let r0 = a.wrapping_add(c.out1);
    let r2a = less_high(m0.wrapping_add(0x69FB_0000), r0, 0x10FA_9605);
    let r2b = plus_high(0x79F8_A395, r2a, 0x689B_6B9F);
    let r3 = less_high(0xEA97_0001, r2b, 0x3C10_1569);
    let r4 = r3.wrapping_add(b);
    let r6a = less_high(m1.wrapping_add(0x13DB_0000), r4, 0x3CE8_EC25);
    let r6b = less_high(0x59C3_AF2D, r6a, 0x2232_E0F1);
    let out1 = plus_high(0x1EC9_0001, r6b, 0x35BD_1EC9);
    Carry { out1, out2: c.out2.wrapping_add(r3).wrapping_add(out1) }
}

/// A step of the second round.
#[verifier::opaque]
pub open spec fn second_step(c: Carry, m0: u32, m1: u32, a: u32, b: u32) -> Carry {
    let r0 = a.wrapping_add(c.out1);
    let r1a = r0.wrapping_mul(m0);
    let r1b = less_high(0xB111_0000, r1a, 0x3067_4EEF);
    let r2a = less_high(0x5B9F_0000, r1b, 0x78F7_A461);
    let r2b = 0x12CE_B96Du32.wrapping_mul(r2a / 0x1_0000).wrapping_sub(
        0x4693_0000u32.wrapping_mul(r2a),
    );
    let r3 = plus_high(0x1D83_0000, r2b, 0x257E_1D83);
    let r4a = m1.wrapping_mul(r3.wrapping_add(b));
    let r4b = less_high(0x16F5_0000, r4a, 0x5D8B_E90B);
    let r5a = less_high(0x96FF_0000, r4b, 0x2C7C_6901);
    let r5b = plus_high(0x2B89_0000, r5a, 0x7C93_2B89);
    let out1 = less_high(0x9F69_0000, r5b, 0x405B_6097);
    Carry { out1, out2: out1.wrapping_add(c.out2).wrapping_add(r3) }
}

/// The first `n` steps of a round, over two words each.
pub open spec fn round(second: bool, data: Seq<u8>, m0: u32, m1: u32, n: nat) -> Carry
    decreases n,
{
    if n == 0 {
        Carry { out1: 0, out2: 0 }
    } else {
        let c = round(second, data, m0, m1, (n - 1) as nat);
        let a = word_at(data, 8 * (n - 1));
        let b = word_at(data, 8 * (n - 1) + 4);
        if second {
            second_step(c, m0, m1, a, b)
        } else {
            first_step(c, m0, m1, a, b)
        }
    }
}

fn step_first(c: Carry, m0: u32, m1: u32, a: u32, b: u32) -> (r: Carry)
    ensures
        r == first_step(c, m0, m1, a, b),
{
    let r0: u32 = a.wrapping_add(c.out1);
    let r2a: u32 = sub_high(m0.wrapping_add(0x69FB_0000), r0, 0x10FA_9605);
    let r2b: u32 = add_high(0x79F8_A395, r2a, 0x689B_6B9F);
    let r3: u32 = sub_high(0xEA97_0001, r2b, 0x3C10_1569);
    let r4: u32 = r3.wrapping_add(b);
    let r6a: u32 = sub_high(m1.wrapping_add(0x13DB_0000), r4, 0x3CE8_EC25);
    let r6b: u32 = sub_high(0x59C3_AF2D, r6a, 0x2232_E0F1);
    let out1: u32 = add_high(0x1EC9_0001, r6b, 0x35BD_1EC9);
    proof {
        reveal(first_step);
    }
    Carry { out1, out2: c.out2.wrapping_add(r3).wrapping_add(out1) }
}

fn step_second(c: Carry, m0: u32, m1: u32, a: u32, b: u32) -> (r: Carry)
    ensures
        r == second_step(c, m0, m1, a, b),
{
    let r0: u32 = a.wrapping_add(c.out1);
    let r1a: u32 = r0.wrapping_mul(m0);
    let r1b: u32 = sub_high(0xB111_0000, r1a, 0x3067_4EEF);
    let r2a: u32 = sub_high(0x5B9F_0000, r1b, 0x78F7_A461);
    let r2b: u32 = 0x12CE_B96Du32.wrapping_mul(r2a / 0x1_0000).wrapping_sub(
        0x4693_0000u32.wrapping_mul(r2a),
    );
    let r3: u32 = add_high(0x1D83_0000, r2b, 0x257E_1D83);
    let r4a: u32 = m1.wrapping_mul(r3.wrapping_add(b));
    let r4b: u32 = sub_high(0x16F5_0000, r4a, 0x5D8B_E90B);
    let r5a: u32 = sub_high(0x96FF_0000, r4b, 0x2C7C_6901);
    let r5b: u32 = add_high(0x2B89_0000, r5a, 0x7C93_2B89);
    let out1: u32 = sub_high(0x9F69_0000, r5b, 0x405B_6097);
    proof {
        reveal(second_step);
    }
    Carry { out1, out2: out1.wrapping_add(c.out2).wrapping_add(r3) }
}

fn run_round(second: bool, data: &[u8], m0: u32, m1: u32, n: usize) -> (r: Carry)
    requires
        8 * n <= usize::MAX,
    ensures
        r == round(second, data@, m0, m1, n as nat),
{
    let mut c = Carry { out1: 0, out2: 0 };
    for i in 0..n
        invariant
            8 * n <= usize::MAX,
            c == round(second, data@, m0, m1, i as nat),
    {
        let a: u32 = word(data, 8 * i);
        let b: u32 = word(data, 8 * i + 4);
        c = if second {
            step_second(c, m0, m1, a, b)
        } else {
            step_first(c, m0, m1, a, b)
        };
    }
    c
}

/// The text as UTF-16 bytes, with the NUL that ends it.
pub open spec fn hashed_bytes(base: Seq<char>) -> Seq<u8> {
    unit_bytes(utf16(base).push(0))
}

/// The words that the rounds go over: how many there are in the length taken as 32 bits, less one
/// where that is odd.
pub open spec fn hashed_words(base: Seq<char>) -> int {
    let q = (hashed_bytes(base).len() % 0x1_0000_0000) / 4;
    q - q % 2
}

/// What the two rounds leave, keyed by the MD5 of the same bytes.
#[verifier::opaque]
pub open spec fn hash_bytes(base: Seq<char>) -> Seq<u8> {
    let data = hashed_bytes(base);
    let key = digest(data);
    let m0 = le32(key, 0) | 1;
    let m1 = le32(key, 4) | 1;
    let n = (hashed_words(base) / 2) as nat;
    let a = round(false, data, m0, m1, n);
    let b = round(true, data, m0, m1, n);
    bytes32(b.out1 ^ a.out1) + bytes32(b.out2 ^ a.out2)
}

/// The UserChoice hash: two rounds of a multiply-shift mix over the UTF-16 bytes, in base64. All
/// arithmetic is 32-bit and wraps. There is none where there are no two words to go over.
pub open spec fn choice_hash(base: Seq<char>) -> Seq<char> {
    if hashed_words(base) == 0 {
        seq![]
    } else {
        base64_of(hash_bytes(base))
    }
}

/// The hash of a choice.
pub fn user_choice_hash(base: &str) -> (r: String)
    ensures
        r@ == choice_hash(base@),
{
    proof {
        reveal(hash_bytes);
    }
    let mut units = encode_utf16(chars_of(base).as_slice());
    units.push(0);
    let data = bytes_of_units(units.as_slice());
    let key = md5(data.as_slice());
    let len: u64 = data.len() as u64 % 0x1_0000_0000;
    let words: u64 = len / 4 - len / 4 % 2;
    if words == 0 {
        let s = String::new();
        assert(s@ =~= seq![]);
        return s;
    }
    let m0: u32 = u32_at(key.as_slice(), 0) | 1;
    let m1: u32 = u32_at(key.as_slice(), 4) | 1;
    let n: usize = (words / 2) as usize;
    let a = run_round(false, data.as_slice(), m0, m1, n);
    let b = run_round(true, data.as_slice(), m0, m1, n);
    let mut out: Vec<u8> = Vec::new();
    put_u32(&mut out, b.out1 ^ a.out1);
    put_u32(&mut out, b.out2 ^ a.out2);
    assert(out@ =~= bytes32(b.out1 ^ a.out1) + bytes32(b.out2 ^ a.out2));
    base64(out.as_slice())
}

proof fn lemma_unit_bytes_len(u: Seq<u16>)
    ensures
        unit_bytes(u).len() == 2 * u.len(),
    decreases u.len(),
{
    if u.len() > 0 {
        lemma_unit_bytes_len(u.drop_last());
    }
}

proof fn lemma_hash_bytes_len(base: Seq<char>)
    ensures
        hash_bytes(base).len() == 8,
{
    reveal(hash_bytes);
}

/// A hash is twelve characters, or nothing where there is next to nothing to hash.
pub proof fn law_hash_length(base: Seq<char>)
    requires
        hashed_bytes(base).len() < 0x1_0000_0000,
    ensures
        choice_hash(base).len() == if utf16(base).len() >= 3 {
            12nat
        } else {
            0
        },
{
    lemma_unit_bytes_len(utf16(base).push(0));
    lemma_hash_bytes_len(base);
    crate::md5::law_base64_length(hash_bytes(base));
}

/// A product with the high half of one factor folded back in, up to multiples of two to the 32nd.
#[verifier::opaque]
pub open spec fn folded(a: int, x: int, b: int) -> int {
    (a * x + b * (x / 0x1_0000)) % 0x1_0000_0000
}

/// A sum up to multiples of two to the 32nd.
#[verifier::opaque]
pub open spec fn summed(x: int, y: int) -> int {
    (x + y) % 0x1_0000_0000
}

proof fn lemma_plus_high(a: u32, x: u32, b: u32)
    ensures
        plus_high(a, x, b) == folded(a as int, x as int, b as int),
{
    reveal(folded);
    let m: int = 0x1_0000_0000;
    let p = a * x;
    let q = b * (x / 0x1_0000);
    assert(p >= 0 && q >= 0) by (nonlinear_arith)
        requires
            p == a * x,
            q == b * (x / 0x1_0000),
            a >= 0,
            b >= 0,
            x >= 0,
    ;
    vstd::arithmetic::div_mod::lemma_add_mod_noop(p, q, m);
}

proof fn lemma_less_high(a: u32, x: u32, b: u32)
    ensures
        less_high(a, x, b) == folded(a as int, x as int, -b),
{
    reveal(folded);
    let m: int = 0x1_0000_0000;
    let p = a * x;
    let q = b * (x / 0x1_0000);
    assert(p >= 0 && q >= 0) by (nonlinear_arith)
        requires
            p == a * x,
            q == b * (x / 0x1_0000),
            a >= 0,
            b >= 0,
            x >= 0,
    ;
    assert((-b) * (x as int / 0x1_0000) == -q) by (nonlinear_arith)
        requires
            q == b * (x / 0x1_0000),
    ;
    vstd::arithmetic::div_mod::lemma_sub_mod_noop(p, q, m);
}

proof fn lemma_high_less(a: u32, x: u32, b: u32)
    ensures
        a.wrapping_mul(x / 0x1_0000).wrapping_sub(b.wrapping_mul(x)) == folded(
            -b,
            x as int,
            a as int,
        ),
{
    reveal(folded);
    let m: int = 0x1_0000_0000;
    let p = a * (x / 0x1_0000);
    let q = b * x;
    assert(p >= 0 && q >= 0) by (nonlinear_arith)
        requires
            p == a * (x / 0x1_0000),
            q == b * x,
            a >= 0,
            b >= 0,
            x >= 0,
    ;
    assert((-b) * (x as int) == -q) by (nonlinear_arith)
        requires
            q == b * x,
    ;
    vstd::arithmetic::div_mod::lemma_sub_mod_noop(p, q, m);
}

proof fn lemma_product(x: u32, y: u32)
    ensures
        x.wrapping_mul(y) == folded(x as int, y as int, 0),
{
    reveal(folded);
    assert(x * y >= 0) by (nonlinear_arith)
        requires
            x >= 0,
            y >= 0,
    ;
    assert(0 * (y as int / 0x1_0000) == 0);
}

proof fn lemma_sum(x: u32, y: u32)
    ensures
        x.wrapping_add(y) == summed(x as int, y as int),
{
    reveal(summed);
}

/// A step of the first round in whole numbers: five products in a row, each with the high half of its
/// factor folded back in by a constant of its own. The first output is the last of them; the second
/// gathers what was in the middle and at the end of every step.
pub proof fn law_first_round(c: Carry, m0: u32, m1: u32, a: u32, b: u32)
    ensures
        ({
            let r = first_step(c, m0, m1, a, b);
            let r0 = summed(a as int, c.out1 as int);
            let r2 = folded(summed(m0 as int, 0x69fb_0000), r0, -0x10fa_9605);
            let s2 = folded(0x79f8_a395, r2, 0x689b_6b9f);
            let r3 = folded(0xea97_0001, s2, -0x3c10_1569);
            let r4 = summed(r3, b as int);
            let r6 = folded(summed(m1 as int, 0x13db_0000), r4, -0x3ce8_ec25);
            let s6 = folded(0x59c3_af2d, r6, -0x2232_e0f1);
            &&& r.out1 == folded(0x1ec9_0001, s6, 0x35bd_1ec9)
            &&& r.out2 == summed(summed(c.out2 as int, r3), r.out1 as int)
        }),
{
    reveal(first_step);
    let r0 = a.wrapping_add(c.out1);
    let k0 = m0.wrapping_add(0x69FB_0000);
    let k1 = m1.wrapping_add(0x13DB_0000);
    let r2a = less_high(k0, r0, 0x10FA_9605);
    let r2b = plus_high(0x79F8_A395, r2a, 0x689B_6B9F);
    let r3 = less_high(0xEA97_0001, r2b, 0x3C10_1569);
    let r4 = r3.wrapping_add(b);
    let r6a = less_high(k1, r4, 0x3CE8_EC25);
    let r6b = less_high(0x59C3_AF2D, r6a, 0x2232_E0F1);
    let out1 = plus_high(0x1EC9_0001, r6b, 0x35BD_1EC9);
    lemma_sum(a, c.out1);
    lemma_sum(m0, 0x69FB_0000);
    lemma_sum(m1, 0x13DB_0000);
    lemma_less_high(k0, r0, 0x10FA_9605);
    lemma_plus_high(0x79F8_A395, r2a, 0x689B_6B9F);
    lemma_less_high(0xEA97_0001, r2b, 0x3C10_1569);
    lemma_sum(r3, b);
    lemma_less_high(k1, r4, 0x3CE8_EC25);
    lemma_less_high(0x59C3_AF2D, r6a, 0x2232_E0F1);
    lemma_plus_high(0x1EC9_0001, r6b, 0x35BD_1EC9);
    lemma_sum(c.out2, r3);
    lemma_sum(c.out2.wrapping_add(r3), out1);
}

/// A step of the second round in whole numbers: the keys are factors as they are, and the constants have
/// no low half, but for those that the high halves are folded in by.
pub proof fn law_second_round(c: Carry, m0: u32, m1: u32, a: u32, b: u32)
    ensures
        ({
            let r = second_step(c, m0, m1, a, b);
            let r0 = summed(a as int, c.out1 as int);
            let r1 = folded(r0, m0 as int, 0);
            let s1 = folded(0xb111_0000, r1, -0x3067_4eef);
            let r2 = folded(0x5b9f_0000, s1, -0x78f7_a461);
            let s2 = folded(-0x4693_0000, r2, 0x12ce_b96d);
            let r3 = folded(0x1d83_0000, s2, 0x257e_1d83);
            let r4 = folded(m1 as int, summed(r3, b as int), 0);
            let s4 = folded(0x16f5_0000, r4, -0x5d8b_e90b);
            let r5 = folded(0x96ff_0000, s4, -0x2c7c_6901);
            let s5 = folded(0x2b89_0000, r5, 0x7c93_2b89);
            &&& r.out1 == folded(0x9f69_0000, s5, -0x405b_6097)
            &&& r.out2 == summed(summed(r.out1 as int, c.out2 as int), r3)
        }),
{
    reveal(second_step);
    let r0 = a.wrapping_add(c.out1);
    let r1a = r0.wrapping_mul(m0);
    let r1b = less_high(0xB111_0000, r1a, 0x3067_4EEF);
    let r2a = less_high(0x5B9F_0000, r1b, 0x78F7_A461);
    let r2b = 0x12CE_B96Du32.wrapping_mul(r2a / 0x1_0000).wrapping_sub(
        0x4693_0000u32.wrapping_mul(r2a),
    );
    let r3 = plus_high(0x1D83_0000, r2b, 0x257E_1D83);
    let r4a = m1.wrapping_mul(r3.wrapping_add(b));
    let r4b = less_high(0x16F5_0000, r4a, 0x5D8B_E90B);
    let r5a = less_high(0x96FF_0000, r4b, 0x2C7C_6901);
    let r5b = plus_high(0x2B89_0000, r5a, 0x7C93_2B89);
    let out1 = less_high(0x9F69_0000, r5b, 0x405B_6097);
    lemma_sum(a, c.out1);
    lemma_product(r0, m0);
    lemma_less_high(0xB111_0000, r1a, 0x3067_4EEF);
    lemma_less_high(0x5B9F_0000, r1b, 0x78F7_A461);
    lemma_high_less(0x12CE_B96D, r2a, 0x4693_0000);
    lemma_plus_high(0x1D83_0000, r2b, 0x257E_1D83);
    lemma_sum(r3, b);
    lemma_product(m1, r3.wrapping_add(b));
    lemma_less_high(0x16F5_0000, r4a, 0x5D8B_E90B);
    lemma_less_high(0x96FF_0000, r4b, 0x2C7C_6901);
    lemma_plus_high(0x2B89_0000, r5a, 0x7C93_2B89);
    lemma_less_high(0x9F69_0000, r5b, 0x405B_6097);
    lemma_sum(out1, c.out2);
    lemma_sum(out1.wrapping_add(c.out2), r3);
}

proof fn lemma_round_front(second: bool, d: Seq<u8>, e: Seq<u8>, m0: u32, m1: u32, n: nat)
    requires
        8 * n <= d.len(),
    ensures
        round(second, d + e, m0, m1, n) == round(second, d, m0, m1, n),
    decreases n,
{
    if n > 0 {
        lemma_round_front(second, d, e, m0, m1, (n - 1) as nat);
        let i = 8 * (n - 1);
        assert((d + e)[i] == d[i] && (d + e)[i + 1] == d[i + 1] && (d + e)[i + 2] == d[i + 2]
            && (d + e)[i + 3] == d[i + 3]);
        assert((d + e)[i + 4] == d[i + 4] && (d + e)[i + 5] == d[i + 5] && (d + e)[i + 6] == d[i + 6]
            && (d + e)[i + 7] == d[i + 7]);
    }
}

/// A round starts from nothing, and takes the text two words at a time, in their order, once each: two
/// more words are one more step.
pub proof fn law_round_takes_pairs(
    second: bool,
    d: Seq<u8>,
    a: u32,
    b: u32,
    rest: Seq<u8>,
    m0: u32,
    m1: u32,
    n: nat,
)
    requires
        d.len() == 8 * n,
    ensures
        ({
            let all = d + bytes32(a) + bytes32(b) + rest;
            let c = round(second, d, m0, m1, n);
            &&& round(second, all, m0, m1, 0) == (Carry { out1: 0, out2: 0 })
            &&& round(second, all, m0, m1, n) == c
            &&& round(second, all, m0, m1, n + 1) == (if second {
                second_step(c, m0, m1, a, b)
            } else {
                first_step(c, m0, m1, a, b)
            })
        }),
{
    let all = d + bytes32(a) + bytes32(b) + rest;
    lemma_round_front(second, d, bytes32(a) + bytes32(b) + rest, m0, m1, n);
    assert(d + (bytes32(a) + bytes32(b) + rest) =~= all);
    crate::bytes::law_u32_reads_back(d, a, bytes32(b) + rest);
    assert(d + bytes32(a) + (bytes32(b) + rest) =~= all);
    crate::bytes::law_u32_reads_back(d + bytes32(a), b, rest);
}

/// The hash of a choice, read back from its twelve characters, is two words. Each is what the two rounds
/// leave, one laid over the other: with what one round leaves taken off, what the other leaves is there.
/// The rounds go over the whole pairs of words of the text in UTF-16 with a zero after it, and their
/// keys are the first two words of its MD5, made odd.
#[verifier::rlimit(80)]
pub proof fn law_hash_is_both_rounds(base: Seq<char>, m0: u32, m1: u32)
    requires
        ({
            let key = digest(unit_bytes(utf16(base).push(0)));
            &&& m0 % 2 == 1 && m0 / 2 == le32(key, 0) / 2
            &&& m1 % 2 == 1 && m1 / 2 == le32(key, 4) / 2
        }),
        8 <= unit_bytes(utf16(base).push(0)).len() < 0x1_0000_0000,
    ensures
        ({
            let data = unit_bytes(utf16(base).push(0));
            let n = data.len() / 8;
            let a = round(false, data, m0, m1, n);
            let b = round(true, data, m0, m1, n);
            let h = crate::md5::base64_bytes(choice_hash(base));
            &&& choice_hash(base).len() == 12
            &&& h.len() == 8
            &&& le32(h, 0) ^ b.out1 == a.out1
            &&& le32(h, 0) ^ a.out1 == b.out1
            &&& le32(h, 4) ^ b.out2 == a.out2
            &&& le32(h, 4) ^ a.out2 == b.out2
        }),
{
    reveal(hash_bytes);
    let data = hashed_bytes(base);
    let key = digest(data);
    let (k0, k1) = (le32(key, 0), le32(key, 4));
    assert(k0 | 1 == m0) by (bit_vector)
        requires
            m0 % 2 == 1,
            m0 / 2 == k0 / 2,
    ;
    assert(k1 | 1 == m1) by (bit_vector)
        requires
            m1 % 2 == 1,
            m1 / 2 == k1 / 2,
    ;
    let n = data.len() / 8;
    assert(hashed_words(base) / 2 == n);
    let a = round(false, data, m0, m1, n);
    let b = round(true, data, m0, m1, n);
    let (x, y) = (b.out1 ^ a.out1, b.out2 ^ a.out2);
    let h = hash_bytes(base);
    assert(h == bytes32(x) + bytes32(y));
    crate::md5::law_base64_returns(h);
    crate::md5::law_base64_length(h);
    crate::bytes::law_u32_reads_back(seq![], x, bytes32(y));
    assert(seq![] + bytes32(x) + bytes32(y) =~= h);
    crate::bytes::law_u32_reads_back(bytes32(x), y, seq![]);
    assert(bytes32(x) + bytes32(y) + seq![] =~= h);
    let (a1, a2, b1, b2) = (a.out1, a.out2, b.out1, b.out2);
    assert((b1 ^ a1) ^ b1 == a1 && (b1 ^ a1) ^ a1 == b1 && (b2 ^ a2) ^ b2 == a2 && (b2 ^ a2) ^ a2 == b2)
        by (bit_vector);
}

/// The text of a moment reads as the start of its minute, in sixteen digits of hex.
pub proof fn law_minute_reads(time: u64)
    ensures
        ({
            let t = minute_text(time);
            let start = number(t.take(8), 16)->0 * 0x1_0000_0000 + number(t.skip(8), 16)->0;
            &&& t.len() == 16
            &&& start <= time < start + 600_000_000
            &&& start % 600_000_000 == 0
            &&& forall|i: int|
                0 <= i < 16 ==> 48 <= (#[trigger] t[i]) as u32 <= 57 || 97 <= t[i] as u32 <= 102
        }),
{
    let s = (time - time % 600_000_000) as nat;
    let t = minute_text(time);
    reveal_with_fuel(sixteens, 9);
    law_hex_returns(s / 0x1_0000_0000, 8, false);
    law_hex_returns(s % 0x1_0000_0000, 8, false);
    let (a, b) = (hex(s / 0x1_0000_0000, 8, false), hex(s % 0x1_0000_0000, 8, false));
    assert(t.take(8) =~= a);
    assert(t.skip(8) =~= b);
    assert forall|i: int| 0 <= i < 16 implies 48 <= (#[trigger] t[i]) as u32 <= 57 || 97
        <= t[i] as u32 <= 102 by {
        if i < 8 {
            assert(t[i] == a[i]);
        } else {
            assert(t[i] == b[i - 8]);
        }
    }
}

/// What registering writes, key by key: the kind of file and how it is opened, by a command line and
/// through the running viewer; the same under the program's own name; and that the program can open
/// images, under its own name among the registered ones.
pub proof fn law_registered(exe: Seq<char>)
    ensures
        ({
            let r = registration(exe);
            let quoted = "\""@ + exe + "\""@;
            let kind = "Software\\Classes\\"@ + PROGID@;
            let class = "Software\\Classes\\CLSID\\"@ + CLSID_STR@;
            let caps = "Software\\Glint"@ + "\\Capabilities"@;
            let open = "\\shell\\open\\command"@;
            &&& r.len() == 50
            &&& r.contains(unnamed(kind, "Image"@))
            &&& r.contains(unnamed(kind + "\\DefaultIcon"@, quoted + ",0"@))
            &&& r.contains(unnamed(kind + open, quoted + " \"%1\""@))
            &&& r.contains(named(kind + open, "DelegateExecute"@, CLSID_STR@))
            &&& r.contains(unnamed(class, "Glint open"@))
            &&& r.contains(unnamed(class + "\\LocalServer32"@, quoted))
            &&& r.contains(
                unnamed(
                    "Software\\Classes\\Applications\\glint.exe"@ + open,
                    quoted + " \"%1\""@,
                ),
            )
            &&& r.contains(named(caps, "ApplicationName"@, "Glint"@))
            &&& r.contains(named(caps, "ApplicationDescription"@, "Fast image viewer"@))
            &&& r.contains(named("Software\\RegisteredApplications"@, "Glint"@, caps))
        }),
{
    let r = registration(exe);
    lemma_extension_ops(20, 0);
    assert(r[0] == unnamed(classes_key(), "Image"@));
    assert(r[1] == unnamed(classes_key() + "\\DefaultIcon"@, "\""@ + exe + "\""@ + ",0"@));
    assert(r[2] == unnamed(
        classes_key() + "\\shell\\open\\command"@,
        "\""@ + exe + "\""@ + " \"%1\""@,
    ));
    assert(r[3] == unnamed(clsid_key(), "Glint open"@));
    assert(r[4] == unnamed(clsid_key() + "\\LocalServer32"@, "\""@ + exe + "\""@));
    assert(r[5] == named(classes_key() + "\\shell\\open\\command"@, "DelegateExecute"@, CLSID_STR@));
    assert(r[6] == unnamed(
        exe_key() + "\\shell\\open\\command"@,
        "\""@ + exe + "\""@ + " \"%1\""@,
    ));
    assert(r[7] == named(caps_key(), "ApplicationName"@, "Glint"@));
    assert(r[8] == named(caps_key(), "ApplicationDescription"@, "Fast image viewer"@));
    assert(r[49] == named("Software\\RegisteredApplications"@, "Glint"@, caps_key()));
}

/// Every extension of an image is registered: the program is offered for it, and says that it opens it.
pub proof fn law_every_extension_registered(exe: Seq<char>, i: int)
    requires
        0 <= i < EXTENSIONS@.len(),
    ensures
        ({
            let r = registration(exe);
            let ext = "."@ + EXTENSIONS@[i]@;
            let caps = "Software\\Glint"@ + "\\Capabilities"@;
            &&& r.contains(named("Software\\Classes\\"@ + ext + "\\OpenWithProgids"@, PROGID@, ""@))
            &&& r.contains(named(caps + "\\FileAssociations"@, ext, PROGID@))
        }),
{
    let r = registration(exe);
    lemma_extension_ops(20, 0);
    lemma_extension_ops(20, 2 * i);
    lemma_extension_ops(20, 2 * i + 1);
    assert(r[9 + 2 * i] == extension_ops(20)[2 * i]);
    assert(r[9 + 2 * i + 1] == extension_ops(20)[2 * i + 1]);
    assert((2 * i + 1) / 2 == i);
}

/// What runs at login is the program itself, in quotes, asked to start hidden.
pub proof fn law_at_login(exe: Seq<char>)
    ensures
        ({
            let run = at_login(exe);
            &&& run.len() == exe.len() + 15
            &&& run[0] == '"' && run[exe.len() as int + 1] == '"'
            &&& run.subrange(1, exe.len() as int + 1) == exe
            &&& run.skip(exe.len() as int + 3) == "--background"@
            &&& flag_of(Some("--background"@)) == Flag::Background
        }),
{
    let run = at_login(exe);
    crate::launch::law_flags(exe);
    reveal_strlit("\"");
    reveal_strlit("\" --background");
    reveal_strlit("--background");
    assert(run.subrange(1, exe.len() as int + 1) =~= exe);
    assert(run.skip(exe.len() as int + 3) =~= "--background"@);
}

/// A word of the data is its four bytes, low byte first; past its end there are only zeros.
pub proof fn law_word(data: Seq<u8>, i: int)
    requires
        0 <= i,
    ensures
        i + 4 <= data.len() ==> word_at(data, i) == data[i] + 0x100 * data[i + 1] + 0x1_0000 * data[i + 2]
            + 0x100_0000 * data[i + 3],
        i + 4 > data.len() ==> word_at(data, i) == 0,
{
}

/// Where Windows keeps what runs at login, and the user's choice for an extension; and what the hash of a
/// choice is made over: the extension, the user, the kind of file, the minute and the fixed text, in this
/// order and in small letters.
pub proof fn law_choice_named(ext: Seq<char>, sid: Seq<char>, time: u64, exe: Seq<char>)
    ensures
        autostart_change(true, exe) == named(
            "Software\\Microsoft\\Windows\\CurrentVersion\\Run"@,
            "Glint"@,
            at_login(exe),
        ),
        choice_key(ext) == "Software\\Microsoft\\Windows\\CurrentVersion\\Explorer\\FileExts"@ + "\\"@ + ext
            + "\\UserChoice"@,
        choice_base(ext, sid, time) == lower(
            ext + sid + "Glint.Image"@ + minute_text(time)
                + "User Choice set via Windows User Experience {D18B6DD5-6124-4341-9318-804003BAFA0B}"@,
        ),
{
}

} // verus!
