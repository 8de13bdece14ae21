//! The folder being browsed: which files are images, and which of two paths name one file; what
//! the open dialog and the recycle bin are handed.

use crate::text::{chars_of, lower, same, utf16, encode_utf16};
use vstd::prelude::*;

verus! {

/// What a stock Windows can open, plus what the Store codecs add (webp, heic, avif, jxl): those
/// fail with a message where the codec is missing.
pub const EXTENSIONS: [&'static str; 20] = [
    "jpg",
    "jpeg",
    "jpe",
    "jfif",
    "png",
    "bmp",
    "dib",
    "gif",
    "tif",
    "tiff",
    "ico",
    "jxr",
    "wdp",
    "hdp",
    "dds",
    "webp",
    "heic",
    "heif",
    "avif",
    "jxl",
];

/// An ASCII capital as its small letter; anything else as it is.
pub open spec fn ascii_small(c: char) -> char {
    if 65 <= c as u32 <= 90 {
        ((c as u32) + 32) as char
    } else {
        c
    }
}

/// The same text but for the case of ASCII letters.
pub open spec fn same_but_case(a: Seq<char>, b: Seq<char>) -> bool {
    &&& a.len() == b.len()
    &&& forall|i: int| 0 <= i < a.len() ==> ascii_small(#[trigger] a[i]) == ascii_small(b[i])
}

fn small(c: char) -> (r: char)
    ensures
        r == ascii_small(c),
{
    let n: u32 = c as u32;
    if 65 <= n && n <= 90 {
        (n as u8 + 32) as char
    } else {
        c
    }
}

/// Whether two texts are the same but for the case of ASCII letters.
pub fn equal_but_case(a: &[char], b: &[char]) -> (r: bool)
    ensures
        r == same_but_case(a@, b@),
{
    if a.len() != b.len() {
        return false;
    }
    let n: usize = a.len();
    for i in 0..n
        invariant
            n == a@.len() == b@.len(),
            forall|j: int| 0 <= j < i ==> ascii_small(#[trigger] a@[j]) == ascii_small(b@[j]),
    {
        if small(a[i]) != small(b[i]) {
            assert(ascii_small(a@[i as int]) != ascii_small(b@[i as int]));
            return false;
        }
    }
    true
}

/// Where the last dot of a file name is.
pub open spec fn last_dot(s: Seq<char>) -> Option<nat>
    decreases s.len(),
{
    if s.len() == 0 {
        None
    } else if s.last() == '.' {
        Some((s.len() - 1) as nat)
    } else {
        last_dot(s.drop_last())
    }
}

/// What follows the last dot of a file name. A name has no extension when it has no dot, when
/// its only dot starts it, and when it is `..`.
pub open spec fn extension_of(name: Seq<char>) -> Option<Seq<char>> {
    match last_dot(name) {
        Some(d) if d > 0 && name != seq!['.', '.'] => Some(name.skip(d as int + 1)),
        _ => None,
    }
}

/// A file name that one of the extensions ends.
pub open spec fn image_name(name: Seq<char>) -> bool {
    match extension_of(name) {
        Some(e) => exists|i: int|
            0 <= i < EXTENSIONS@.len() && same_but_case(e, #[trigger] EXTENSIONS@[i]@),
        None => false,
    }
}

fn find_last_dot(v: &[char]) -> (r: Option<usize>)
    ensures
        r matches Some(d) ==> last_dot(v@) == Some(d as nat) && d < v@.len(),
        r is None ==> last_dot(v@) is None,
{
    let n: usize = v.len();
    let mut i: usize = n;
    assert(v@.take(n as int) =~= v@);
    while i > 0
        invariant
            i <= n == v@.len(),
            last_dot(v@) == last_dot(v@.take(i as int)),
        decreases i,
    {
        assert(v@.take(i as int).last() == v@[i - 1]);
        assert(v@.take(i as int).drop_last() =~= v@.take(i - 1));
        if v[i - 1] == '.' {
            return Some(i - 1);
        }
        i = i - 1;
    }
    None
}

/// The extension of a file name, without its dot.
pub fn extension(name: &[char]) -> (r: Option<&[char]>)
    ensures
        r matches Some(e) ==> extension_of(name@) == Some(e@),
        r is None ==> extension_of(name@) is None,
{
    match find_last_dot(name) {
        Some(d) => {
            let n: usize = name.len();
            let up: bool = n == 2 && name[0] == '.' && name[1] == '.';
            assert(up == (name@ =~= seq!['.', '.']));
            if d > 0 && !up {
                assert(name@.subrange(d + 1, n as int) =~= name@.skip(d + 1));
                Some(&name[d + 1..n])
            } else {
                None
            }
        },
        None => None,
    }
}

/// Whether the file of this name is an image to be shown.
pub fn is_image(name: &str) -> (r: bool)
    ensures
        r == image_name(name@),
{
    let chars = chars_of(name);
    match extension(chars.as_slice()) {
        Some(e) => {
            for i in 0..20usize
                invariant
                    extension_of(name@) == Some(e@),
                    forall|j: int| 0 <= j < i ==> !same_but_case(e@, #[trigger] EXTENSIONS@[j]@),
            {
                let x: &str = EXTENSIONS[i];
                let x = chars_of(x);
                if equal_but_case(e, x.as_slice()) {
                    assert(same_but_case(e@, EXTENSIONS@[i as int]@));
                    return true;
                }
            }
            false
        },
        None => false,
    }
}

/// What a folder listing says of one of its entries.
pub struct Entry {
    /// An ordinary file, not a folder.
    pub file: bool,
    pub name: String,
}

/// The places of the entries that are images, in the order of the listing.
pub open spec fn image_places(entries: Seq<Entry>) -> Seq<usize>
    decreases entries.len(),
{
    if entries.len() == 0 {
        seq![]
    } else {
        let before = image_places(entries.drop_last());
        if entries.last().file && image_name(entries.last().name@) {
            before.push((entries.len() - 1) as usize)
        } else {
            before
        }
    }
}

/// The images of a folder: which entries of its listing stay.
pub fn list(entries: &[Entry]) -> (r: Vec<usize>)
    ensures
        r@ == image_places(entries@),
{
    let mut out: Vec<usize> = Vec::new();
    let n: usize = entries.len();
    for i in 0..n
        invariant
            n == entries@.len(),
            out@ == image_places(entries@.take(i as int)),
    {
        assert(entries@.take(i + 1).drop_last() =~= entries@.take(i as int));
        if entries[i].file && is_image(entries[i].name.as_str()) {
            out.push(i);
        }
    }
    assert(entries@.take(n as int) =~= entries@);
    out
}

/// A place is listed exactly when its entry is a file with an image's name, and each once.
pub proof fn law_listed(entries: Seq<Entry>)
    requires
        entries.len() <= usize::MAX,
    ensures
        forall|i: int|
            0 <= i < entries.len() ==> (image_places(entries).contains(i as usize)
                <==> #[trigger] entries[i].file && image_name(entries[i].name@)),
        forall|i: int, j: int|
            0 <= i < j < image_places(entries).len() ==> #[trigger] image_places(entries)[i]
                < #[trigger] image_places(entries)[j] < entries.len(),
        forall|i: int|
            0 <= i < image_places(entries).len() ==> #[trigger] image_places(entries)[i]
                < entries.len(),
    decreases entries.len(),
{
    if entries.len() > 0 {
        let short = entries.drop_last();
        law_listed(short);
        let was = image_places(short);
        let now = image_places(entries);
        assert forall|i: int| 0 <= i < entries.len() implies (now.contains(i as usize)
            <==> #[trigger] entries[i].file && image_name(entries[i].name@)) by {
            if i < short.len() {
                assert(short[i] == entries[i]);
                if was.contains(i as usize) {
                    let k = choose|k: int| 0 <= k < was.len() && was[k] == i as usize;
                    assert(now[k] == i as usize);
                }
                if now.contains(i as usize) {
                    let k = choose|k: int| 0 <= k < now.len() && now[k] == i as usize;
                    assert(k < was.len());
                    assert(was[k] == i as usize);
                }
            } else {
                if entries[i].file && image_name(entries[i].name@) {
                    assert(now.last() == i as usize);
                } else if now.contains(i as usize) {
                    let k = choose|k: int| 0 <= k < now.len() && now[k] == i as usize;
                    assert(was[k] == i as usize);
                }
            }
        }
    }
}

/// Same file name, ignoring case: a path from the command line and one from a folder listing can
/// differ in case and in how the folder is spelled. Paths without a file name are never the same.
pub fn same_name(a: Option<&str>, b: Option<&str>) -> (r: bool)
    ensures
        r == (a is Some && b is Some && lower(a->0@) == lower(b->0@)),
{
    match (a, b) {
        (Some(x), Some(y)) => equal_lower(x, y),
        _ => false,
    }
}

/// Whether two texts are the same in lower case.
pub fn equal_lower(a: &str, b: &str) -> (r: bool)
    ensures
        r == (lower(a@) == lower(b@)),
{
    let x = a.to_lowercase();
    let y = b.to_lowercase();
    let x = chars_of(x.as_str());
    let y = chars_of(y.as_str());
    same(x.as_slice(), y.as_slice())
}

/// A text in UTF-16 with the NUL that ends it.
pub fn wide(units: &[u16]) -> (r: Vec<u16>)
    ensures
        r@ == units@.push(0),
{
    let mut v: Vec<u16> = Vec::new();
    put_units(&mut v, units);
    v.push(0);
    v
}

fn put_units(out: &mut Vec<u16>, units: &[u16])
    ensures
        final(out)@ == old(out)@ + units@,
{
    let n: usize = units.len();
    assert(out@ =~= old(out)@ + units@.take(0));
    for i in 0..n
        invariant
            n == units@.len(),
            out@ == old(out)@ + units@.take(i as int),
    {
        out.push(units[i]);
        assert(out@ =~= old(out)@ + units@.take(i + 1));
    }
    assert(units@.take(n as int) =~= units@);
}

/// `*.jpg;*.jpeg` and so on, for the first `n` extensions.
pub open spec fn patterns(n: nat) -> Seq<char>
    decreases n,
{
    if n == 0 {
        seq![]
    } else if n == 1 {
        seq!['*', '.'] + EXTENSIONS@[0]@
    } else {
        patterns((n - 1) as nat) + seq![';', '*', '.'] + EXTENSIONS@[n - 1]@
    }
}

/// The file types of the open dialog: name and pattern in turn, each ended by a NUL, and a NUL
/// after the last.
pub open spec fn dialog_types() -> Seq<u16> {
    utf16("Images"@) + seq![0u16] + utf16(patterns(20)) + seq![0u16] + utf16("All files"@)
        + seq![0u16] + utf16("*.*"@) + seq![0u16, 0u16]
}

fn put_text(out: &mut Vec<u16>, s: &str)
    ensures
        final(out)@ == old(out)@ + utf16(s@) + seq![0u16],
{
    let c = chars_of(s);
    let u = encode_utf16(c.as_slice());
    put_units(out, u.as_slice());
    out.push(0);
    assert(out@ =~= old(out)@ + utf16(s@) + seq![0u16]);
}

/// The filter of the open dialog.
pub fn open_dialog() -> (r: Vec<u16>)
    ensures
        r@ == dialog_types(),
{
    let mut p = String::new();
    for i in 0..20usize
        invariant
            p@ == patterns(i as nat),
    {
        let ghost before = p@;
        if i > 0 {
            p.push(';');
        }
        p.push('*');
        p.push('.');
        p.append(EXTENSIONS[i]);
        if i == 0 {
            assert(p@ =~= seq!['*', '.'] + EXTENSIONS@[0]@);
        } else {
            assert(p@ =~= before + seq![';', '*', '.'] + EXTENSIONS@[i as int]@);
        }
    }
    let mut v: Vec<u16> = Vec::new();
    put_text(&mut v, "Images");
    put_text(&mut v, p.as_str());
    put_text(&mut v, "All files");
    put_text(&mut v, "*.*");
    v.push(0);
    assert(v@ =~= dialog_types());
    v
}

/// How much of the dialog's buffer is the chosen path: up to the first NUL, nothing where there
/// is none.
pub fn chosen_len(buf: &[u16]) -> (r: usize)
    ensures
        r <= buf@.len(),
        forall|i: int| 0 <= i < r ==> #[trigger] buf@[i] != 0,
        buf@.contains(0u16) ==> r < buf@.len() && buf@[r as int] == 0,
        !buf@.contains(0u16) ==> r == 0,
{
    let n: usize = buf.len();
    for i in 0..n
        invariant
            n == buf@.len(),
            forall|j: int| 0 <= j < i ==> #[trigger] buf@[j] != 0,
    {
        if buf[i] == 0 {
            return i;
        }
    }
    0
}

/// The list of one path that the shell is handed to move to the recycle bin: it is ended by a
/// second NUL.
pub fn recycle(units: &[u16]) -> (r: Vec<u16>)
    ensures
        r@ == units@ + seq![0u16, 0u16],
{
    let mut from = wide(units);
    from.push(0);
    assert(from@ =~= units@ + seq![0u16, 0u16]);
    from
}

proof fn lemma_last_dot(a: Seq<char>, b: Seq<char>)
    requires
        forall|i: int| 0 <= i < b.len() ==> #[trigger] b[i] != '.',
    ensures
        last_dot(a + b) == last_dot(a),
    decreases b.len(),
{
    if b.len() == 0 {
        assert(a + b =~= a);
    } else {
        let c = b.drop_last();
        assert(b[b.len() - 1] != '.');
        assert forall|i: int| 0 <= i < c.len() implies #[trigger] c[i] != '.' by {
            assert(c[i] == b[i]);
        }
        lemma_last_dot(a, c);
        assert((a + b).drop_last() =~= a + c);
    }
}

/// What stands behind the last dot is the extension; a name that only starts with a dot has none, nor has
/// one without any.
pub proof fn law_extension(stem: Seq<char>, ext: Seq<char>)
    requires
        forall|i: int| 0 <= i < ext.len() ==> #[trigger] ext[i] != '.',
    ensures
        stem.len() > 0 && (ext.len() > 0 || stem != seq!['.']) ==> extension_of(
            stem + seq!['.'] + ext,
        ) == Some(ext),
        extension_of(seq!['.'] + ext) is None,
        extension_of(ext) is None,
{
    let a = stem + seq!['.'];
    let n = stem + seq!['.'] + ext;
    lemma_last_dot(a, ext);
    assert(a.last() == '.');
    assert(n.skip(stem.len() as int + 1) =~= ext);
    if n =~= seq!['.', '.'] && stem.len() > 0 {
        assert(stem =~= seq![n[0]]);
        assert(n.len() == stem.len() + 1 + ext.len());
    }
    let d = seq!['.'] + ext;
    lemma_last_dot(seq!['.'], ext);
    assert(seq!['.'].last() == '.');
    lemma_last_dot(seq![], ext);
    assert(seq![] + ext =~= ext);
}

/// A file is an image by its extension alone, in whatever case that is written.
pub proof fn law_image_by_extension(stem: Seq<char>, ext: Seq<char>, i: int)
    requires
        0 <= i < 20,
        stem.len() > 0,
        ext.len() > 0,
        forall|i: int| 0 <= i < ext.len() ==> #[trigger] ext[i] != '.',
        same_but_case(ext, EXTENSIONS@[i]@),
    ensures
        image_name(stem + seq!['.'] + ext),
{
    law_extension(stem, ext);
    assert(same_but_case(ext, EXTENSIONS@[i]@));
}

/// The case of a letter does not count, and every other character does.
pub proof fn law_case(a: char, b: char)
    ensures
        same_but_case(seq![a], seq![b]) <==> a == b || (65 <= a as u32 <= 90 && b as u32 == a as u32 + 32)
            || (65 <= b as u32 <= 90 && a as u32 == b as u32 + 32),
{
    let (x, y) = (seq![a], seq![b]);
    assert(x[0] == a && y[0] == b);
    if ascii_small(a) == ascii_small(b) {
        assert(same_but_case(x, y));
    }
    if same_but_case(x, y) {
        assert(ascii_small(x[0]) == ascii_small(y[0]));
    }
}

/// The images are the files with one of these extensions.
pub proof fn law_extensions()
    ensures
        EXTENSIONS@.map_values(|s: &'static str| s@) =~= seq![
            "jpg"@,
            "jpeg"@,
            "jpe"@,
            "jfif"@,
            "png"@,
            "bmp"@,
            "dib"@,
            "gif"@,
            "tif"@,
            "tiff"@,
            "ico"@,
            "jxr"@,
            "wdp"@,
            "hdp"@,
            "dds"@,
            "webp"@,
            "heic"@,
            "heif"@,
            "avif"@,
            "jxl"@,
        ],
{
}

/// Everything the open dialog offers as an image is one: each extension has its pattern, and the patterns
/// stand one after another.
pub proof fn law_patterns(n: nat, k: nat)
    requires
        k < n <= 20,
    ensures
        exists|at: int|
            0 <= at && at + 2 + EXTENSIONS@[k as int]@.len() <= patterns(n).len() && #[trigger] patterns(
                n,
            ).subrange(at, at + 2 + EXTENSIONS@[k as int]@.len()) == seq!['*', '.'] + EXTENSIONS@[k as int]@,
    decreases n,
{
    let p = patterns(n);
    let e = EXTENSIONS@[k as int]@;
    if n == 1 {
        let at: int = 0;
        assert(p.subrange(at, at + 2 + e.len()) =~= seq!['*', '.'] + e);
    } else {
        let before = patterns((n - 1) as nat);
        if k == n - 1 {
            let at = before.len() as int + 1;
            assert(p.subrange(at, at + 2 + e.len()) =~= seq!['*', '.'] + e);
        } else {
            law_patterns((n - 1) as nat, k);
            let at = choose|at: int|
                0 <= at && at + 2 + e.len() <= before.len() && #[trigger] before.subrange(
                    at,
                    at + 2 + e.len(),
                ) == seq!['*', '.'] + e;
            assert(p.subrange(at, at + 2 + e.len()) =~= before.subrange(at, at + 2 + e.len()));
        }
    }
}

/// Nothing else is an image: a file without an extension, or with one that is not among them.
pub proof fn law_no_image(stem: Seq<char>, ext: Seq<char>)
    requires
        stem.len() > 0,
        ext.len() > 0,
        forall|i: int| 0 <= i < ext.len() ==> #[trigger] ext[i] != '.',
        forall|i: int| 0 <= i < 20 ==> !same_but_case(ext, #[trigger] EXTENSIONS@[i]@),
    ensures
        !image_name(stem + seq!['.'] + ext),
        !image_name(ext),
        !image_name(seq!['.'] + ext),
{
    law_extension(stem, ext);
}

/// The open dialog offers the images first, then all files; each by its name and its pattern, ended by a
/// NUL, and the list by another.
pub proof fn law_dialog_types()
    ensures
        ({
            let t = dialog_types();
            let images = utf16("Images"@).push(0) + utf16(patterns(20)).push(0);
            let all = utf16("All files"@).push(0) + utf16("*.*"@).push(0);
            t == (images + all).push(0)
        }),
{
    let images = utf16("Images"@).push(0) + utf16(patterns(20)).push(0);
    let all = utf16("All files"@).push(0) + utf16("*.*"@).push(0);
    assert(dialog_types() =~= (images + all).push(0));
}

} // verus!
