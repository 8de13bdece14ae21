//! An image from the clipboard, as a file the viewer can open like any other. The file lives alone in its
//! folder, so there is nothing else to flip to.

use crate::bytes::{bytes32, law_u32_reads_back, le16, le32, put_all, put_u32, u16_at, u32_at};
use crate::files::{image_name, is_image};
use crate::text::{cat3, decimal, decimal_of, lemma_decimal_chars, lemma_decimal_number};
use vstd::prelude::*;

verus! {

pub const CF_DIB: u32 = 8;

pub const CF_HDROP: u32 = 15;

pub const CF_DIBV5: u32 = 17;

/// How often the clipboard is tried: another program may hold it for a moment.
pub const OPEN_TRIES: u32 = 5;

/// What comes after trying to open the clipboard.
#[derive(Clone, Copy, PartialEq, Eq, Structural, Debug)]
pub enum Opening {
    Open,
    /// After a moment, once more.
    Again,
    GiveUp,
}

/// The clipboard was tried for the `tried`th time (counted from one), and opened or not.
pub fn opening(tried: u32, opened: bool) -> (r: Opening)
    ensures
        r == (if opened {
            Opening::Open
        } else if tried < OPEN_TRIES {
            Opening::Again
        } else {
            Opening::GiveUp
        }),
        r == Opening::Again <==> !opened && tried < 5,
{
    if opened {
        Opening::Open
    } else if tried < OPEN_TRIES {
        Opening::Again
    } else {
        Opening::GiveUp
    }
}

/// How many colours the palette of a bitmap has.
pub open spec fn palette_len(used: u32, bpp: u16) -> int {
    if used > 0 {
        used as int
    } else if bpp <= 8 {
        (1u32 << (bpp as u32)) as int
    } else {
        0
    }
}

/// Where the pixels of a bitmap file start: after the file header, the header, the three colour masks that
/// follow a plain header when the pixels are bit fields, and the palette.
#[verifier::opaque]
pub open spec fn pixel_offset(dib: Seq<u8>) -> int {
    let header = le32(dib, 0);
    14 + header + (if header == 40 && le32(dib, 16) == 3 {
        12int
    } else {
        0
    }) + palette_len(le32(dib, 32), le16(dib, 14)) * 4
}

/// The low 32 bits of a number.
pub open spec fn low32(n: int) -> u32 {
    (n % 0x1_0000_0000) as u32
}

/// A packed bitmap with the file header in front.
pub open spec fn bitmap_file(dib: Seq<u8>) -> Seq<u8> {
    seq![0x42u8, 0x4d] + bytes32(low32(14 + dib.len() as int)) + seq![0u8, 0, 0, 0] + bytes32(
        low32(pixel_offset(dib)),
    ) + dib
}

fn find_pixels(dib: &[u8]) -> (r: u64)
    requires
        dib@.len() >= 36,
    ensures
        r == pixel_offset(dib@),
{
    proof {
        reveal(pixel_offset);
    }
    let header: u64 = u32_at(dib, 0) as u64;
    let bpp: u16 = u16_at(dib, 14);
    let compression: u32 = u32_at(dib, 16);
    let used: u32 = u32_at(dib, 32);
    let masks: u64 = if header == 40 && compression == 3 {
        12
    } else {
        0
    };
    let palette: u64 = if used > 0 {
        used as u64
    } else if bpp <= 8 {
        (1u32 << (bpp as u32)) as u64
    } else {
        0
    };
    14 + header + masks + palette * 4
}

fn file_size(n: u64) -> (r: u32)
    ensures
        r == low32(14 + n as int),
{
    let low: u64 = n % 0x1_0000_0000;
    ((14 + low) % 0x1_0000_0000) as u32
}

/// A packed DIB (header, masks, palette, pixels) with the 14-byte file header in front: the clipboard's
/// bitmap as a file that opens. None where its header is cut short.
pub fn bmp_file(dib: &[u8]) -> (r: Option<Vec<u8>>)
    ensures
        r is Some == (dib@.len() >= 36),
        r is Some ==> r->0@ == bitmap_file(dib@),
{
    if dib.len() < 36 {
        return None;
    }
    let offset: u64 = find_pixels(dib);
    let size: u32 = file_size(dib.len() as u64);
    let start: u32 = (offset % 0x1_0000_0000) as u32;
    let mut out: Vec<u8> = Vec::new();
    out.push(0x42);
    out.push(0x4d);
    put_u32(&mut out, size);
    let ghost two = out@;
    assert(two =~= seq![0x42u8, 0x4d] + bytes32(low32(14 + dib@.len() as int)));
    put_u32(&mut out, 0);
    assert(bytes32(0) =~= seq![0u8, 0, 0, 0]);
    put_u32(&mut out, start);
    put_all(&mut out, dib);
    Some(out)
}

/// A picture on the clipboard.
pub enum Content {
    /// A copied file, by its place in the list.
    Copied(usize),
    /// Pixels, to be written out under this extension.
    Pixels { bytes: Vec<u8>, ext: &'static str },
}

/// The first file of a list that is an image.
pub open spec fn first_image(names: Seq<String>, i: int) -> bool {
    &&& 0 <= i < names.len()
    &&& image_name(names[i]@)
    &&& forall|j: int| 0 <= j < i ==> !image_name((#[trigger] names[j])@)
}

pub open spec fn no_image(names: Seq<String>) -> bool {
    forall|j: int| 0 <= j < names.len() ==> !image_name((#[trigger] names[j])@)
}

fn find_image(names: &Vec<String>) -> (r: Option<usize>)
    ensures
        r is None == no_image(names@),
        r is Some ==> first_image(names@, r->0 as int),
{
    for i in 0..names.len()
        invariant
            forall|j: int| 0 <= j < i ==> !image_name((#[trigger] names@[j])@),
    {
        if is_image(names[i].as_str()) {
            assert(image_name(names@[i as int]@));
            return Some(i);
        }
    }
    None
}

fn bitmap(dib: &Option<Vec<u8>>) -> (r: Option<Vec<u8>>)
    ensures
        r is Some == (dib is Some && dib->0@.len() >= 36),
        r is Some ==> r->0@ == bitmap_file(dib->0@),
{
    match dib {
        Some(d) => bmp_file(d.as_slice()),
        None => None,
    }
}

/// What is on the clipboard, from what it offers: the names of copied files, the bytes of a PNG, and of a
/// bitmap in the newer and the older form. A copied image file itself, else the copied pixels: PNG first,
/// which has alpha and is small.
pub fn image(
    names: &Vec<String>,
    png: Option<Vec<u8>>,
    dibv5: Option<Vec<u8>>,
    dib: Option<Vec<u8>>,
) -> (r: Option<Content>)
    ensures
        !no_image(names@) ==> r is Some && r->0 is Copied && first_image(
            names@,
            (r->0)->Copied_0 as int,
        ),
        no_image(names@) && png is Some ==> r is Some && r->0 is Pixels && (r->0)->ext@ == "png"@
            && (r->0)->bytes@ == png->0@,
        no_image(names@) && png is None ==> {
            let five = dibv5 is Some && dibv5->0@.len() >= 36;
            let one = dib is Some && dib->0@.len() >= 36;
            &&& r is Some == (five || one)
            &&& r is Some ==> r->0 is Pixels && (r->0)->ext@ == "bmp"@
            &&& five ==> (r->0)->bytes@ == bitmap_file(dibv5->0@)
            &&& !five && one ==> (r->0)->bytes@ == bitmap_file(dib->0@)
        },
{
    match find_image(names) {
        Some(i) => {
            return Some(Content::Copied(i));
        },
        None => {},
    }
    match png {
        Some(bytes) => {
            return Some(Content::Pixels { bytes, ext: "png" });
        },
        None => {},
    }
    match bitmap(&dibv5) {
        Some(bytes) => {
            return Some(Content::Pixels { bytes, ext: "bmp" });
        },
        None => {},
    }
    match bitmap(&dib) {
        Some(bytes) => Some(Content::Pixels { bytes, ext: "bmp" }),
        None => None,
    }
}

pub open spec fn saved_name(stamp: u64, ext: Seq<char>) -> Seq<char> {
    "clipboard-"@ + decimal(stamp as nat) + "."@ + ext
}

/// What the file with the pixels is called: a new name each time, by the time in milliseconds. The viewer
/// keeps what it decoded by path, and the same name would show the previous clipboard.
pub fn save(stamp: u64, ext: &str) -> (r: String)
    ensures
        r@ == saved_name(stamp, ext@),
{
    let n = decimal_of(stamp);
    let mut s = cat3("clipboard-", n.as_str(), ".");
    s.append(ext);
    s
}

/// Pixels copied at another time get another name.
pub proof fn law_new_name_each_time(a: u64, b: u64, x: Seq<char>, y: Seq<char>)
    requires
        a != b,
    ensures
        saved_name(a, x) != saved_name(b, y),
{
    reveal_strlit(".");
    let p = "clipboard-"@;
    let (d, e) = (decimal(a as nat), decimal(b as nat));
    let (s, t) = (saved_name(a, x), saved_name(b, y));
    lemma_decimal_chars(a as nat);
    lemma_decimal_chars(b as nat);
    if s == t {
        let n = p.len();
        if d.len() < e.len() {
            assert(s[(n + d.len()) as int] == '.');
            assert(t[(n + d.len()) as int] == e[d.len() as int]);
        } else if e.len() < d.len() {
            assert(t[(n + e.len()) as int] == '.');
            assert(s[(n + e.len()) as int] == d[e.len() as int]);
        } else {
            assert forall|i: int| 0 <= i < d.len() implies d[i] == e[i] by {
                assert(s[n + i] == d[i]);
                assert(t[n + i] == e[i]);
            }
            assert(d =~= e);
            lemma_decimal_number(a as nat);
            lemma_decimal_number(b as nat);
        }
    }
}

/// A bitmap's file starts with its mark, its size and where the pixels are, and goes on with the bitmap as
/// it was copied.
pub proof fn law_bitmap_file(dib: Seq<u8>)
    requires
        36 <= dib.len() < 0xffff_0000,
        pixel_offset(dib) <= u32::MAX,
        0 <= pixel_offset(dib),
    ensures
        ({
            let f = bitmap_file(dib);
            &&& f.len() == dib.len() + 14
            &&& f[0] == 0x42 && f[1] == 0x4d
            &&& le32(f, 2) == f.len()
            &&& le32(f, 6) == 0
            &&& le32(f, 10) == pixel_offset(dib)
            &&& f.skip(14) == dib
        }),
{
    let f = bitmap_file(dib);
    let n = low32(14 + dib.len() as int);
    let p = low32(pixel_offset(dib));
    let mark = seq![0x42u8, 0x4d];
    let zero = seq![0u8, 0, 0, 0];
    assert(f =~= mark + bytes32(n) + (zero + bytes32(p) + dib));
    law_u32_reads_back(mark, n, zero + bytes32(p) + dib);
    assert(f =~= mark + bytes32(n) + zero + bytes32(p) + dib);
    law_u32_reads_back(mark + bytes32(n) + zero, p, dib);
    assert(f.skip(14) =~= dib);
}

/// The pixels of a bitmap come behind its headers, four bytes for each colour of its palette, and the
/// masks that follow a plain header of bit fields. A palette of its own has as many colours as it says;
/// else a picture of up to eight bits has all there can be, and a deeper one none.
pub proof fn law_pixels_start(dib: Seq<u8>)
    requires
        dib.len() >= 36,
    ensures
        ({
            let header = le32(dib, 0) as int;
            let used = le32(dib, 32) as int;
            let bpp = le16(dib, 14);
            let masks = if header == 40 && le32(dib, 16) == 3 {
                12int
            } else {
                0
            };
            let at = pixel_offset(dib);
            &&& used > 0 ==> at == 14 + header + masks + 4 * used
            &&& used == 0 && bpp > 8 ==> at == 14 + header + masks
            &&& used == 0 && bpp == 8 ==> at == 14 + header + masks + 1024
            &&& used == 0 && bpp == 4 ==> at == 14 + header + masks + 64
            &&& used == 0 && bpp == 1 ==> at == 14 + header + masks + 8
        }),
{
    reveal(pixel_offset);
    assert(1u32 << 8u32 == 256 && 1u32 << 4u32 == 16 && 1u32 << 1u32 == 2) by (bit_vector);
}

/// The file taken from the clipboard is an image, and none before it in the list is; none is taken only
/// where none is.
pub proof fn law_first_image(names: Seq<String>, i: int, j: int)
    requires
        0 <= j < names.len(),
    ensures
        first_image(names, i) && j < i ==> !image_name(names[j]@),
        first_image(names, i) ==> 0 <= i < names.len() && image_name(names[i]@),
        no_image(names) ==> !image_name(names[j]@),
{
}

} // verus!
