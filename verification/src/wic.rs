//! Decoded pictures: how good their pixels are, how far a codec may shrink them, and the turning
//! of a codec's pixels into the premultiplied BGRA that goes to the GPU.

use crate::com::{is_id, Guid};
use vstd::prelude::*;

verus! {

pub const FMT_PBGRA: u128 = 0x6fddc324_4e03_4bfe_b185_3d77768dc910;

pub const FMT_BGRA: u128 = 0x6fddc324_4e03_4bfe_b185_3d77768dc90f;

pub const FMT_BGR32: u128 = 0x6fddc324_4e03_4bfe_b185_3d77768dc90e;

pub const FMT_BGR24: u128 = 0x6fddc324_4e03_4bfe_b185_3d77768dc90c;

pub const FMT_GRAY8: u128 = 0x6fddc324_4e03_4bfe_b185_3d77768dc908;

/// The type of a 16-bit number in a property.
pub const VT_UI2: u16 = 18;

/// Rows copied at a time from a full decode: between bands the job checks it is still wanted, so
/// flipping past an image stops its decode instead of letting it finish for nothing.
pub const BAND: u32 = 256;

/// Decoded pixels: premultiplied BGRA, top-down, tightly packed.
pub struct Img {
    pub w: u32,
    pub h: u32,
    pub px: Vec<u8>,
    /// The image's real size: a preview is decoded smaller, and zoom is measured against this.
    pub full_w: u32,
    pub full_h: u32,
    /// EXIF orientation, 1..=8.
    pub orient: u8,
    /// Nothing sharper will come: full size, or as much as the GPU can hold.
    pub full: bool,
    /// A stand-in from the thumbnail cache or the file's EXIF thumbnail: shown for the few
    /// milliseconds until the real pixels come.
    pub thumb: bool,
    /// Unique per decode: what a GPU slot remembers instead of holding the pixels alive.
    pub id: u64,
}

/// How good pixels are: thumbnail 0, preview 1, full 2.
pub open spec fn rank_of(full: bool, thumb: bool) -> u8 {
    if full {
        2
    } else if thumb {
        0
    } else {
        1
    }
}

impl Img {
    /// How good these pixels are: thumbnail 0, preview 1, full 2.
    pub fn rank(&self) -> (r: u8)
        ensures
            r == rank_of(self.full, self.thumb),
    {
        if self.full {
            2
        } else if self.thumb {
            0
        } else {
            1
        }
    }
}

/// The numbers of the decodes.
pub struct Ids {
    pub next: u64,
}

impl Ids {
    pub fn new() -> (r: Ids)
        ensures
            r.next == 1,
    {
        Ids { next: 1 }
    }

    pub fn next_id(&mut self) -> (id: u64)
        ensures
            id == old(self).next,
            final(self).next == old(self).next.wrapping_add(1),
    {
        let id: u64 = self.next;
        self.next = id.wrapping_add(1);
        id
    }
}

/// A counter from its start on, and the numbers it gave.
pub open spec fn counted(run: Seq<Ids>, ids: Seq<u64>) -> bool {
    &&& run.len() == ids.len() + 1
    &&& run[0].next == 1
    &&& forall|k: int|
        0 <= k < ids.len() ==> #[trigger] ids[k] == run[k].next && run[k + 1].next
            == run[k].next.wrapping_add(1)
}

proof fn lemma_counted(run: Seq<Ids>, ids: Seq<u64>, k: int)
    requires
        counted(run, ids),
        0 <= k < ids.len(),
        k < u64::MAX,
    ensures
        ids[k] == 1 + k,
    decreases k,
{
    if k > 0 {
        lemma_counted(run, ids, k - 1);
        assert(run[k - 1 + 1].next == run[k - 1].next.wrapping_add(1));
    }
}

/// No two decodes have one number, none has the number 0, and a later one has a larger number, as
/// long as the counter has not gone round.
pub proof fn law_ids_grow(run: Seq<Ids>, ids: Seq<u64>, i: int, j: int)
    requires
        counted(run, ids),
        0 <= i < j < ids.len(),
        j < u64::MAX,
    ensures
        0 < ids[i] < ids[j],
{
    lemma_counted(run, ids, i);
    lemma_counted(run, ids, j);
}

/// EXIF orientation from what the photo's metadata gave: the property's type and its first 16
/// bits, of which the low byte counts. 1 when there is none.
pub fn orientation(found: bool, kind: u16, value: u16) -> (r: u8)
    ensures
        r == (if found && kind == VT_UI2 && 1 <= value % 256 <= 8 {
            (value % 256) as u8
        } else {
            1u8
        }),
        1 <= r <= 8,
{
    let o: u16 = value % 256;
    if found && kind == VT_UI2 && 1 <= o && o <= 8 {
        o as u8
    } else {
        1
    }
}

/// Whether an orientation lies the image across: its width is then shown as height.
pub open spec fn across(orient: u8) -> bool {
    orient >= 5
}

/// An image `fw` by `fh` shrunk by `s` still covers a screen `tw` by `th` that it is fitted in:
/// at fit it is no larger than that, on one side at least.
pub open spec fn covers(fw: u32, fh: u32, tw: u32, th: u32, s: int) -> bool {
    tw * s <= fw || th * s <= fh
}

/// How far a codec may shrink the image for a screen: the largest of 8, 4 and 2 that still covers
/// the screen at fit. The image lies across the screen turned by its orientation.
pub open spec fn shrink_for(fw: u32, fh: u32, target: (u32, u32), orient: u8) -> Option<u32> {
    let t = if across(orient) {
        (target.1, target.0)
    } else {
        target
    };
    if covers(fw, fh, t.0, t.1, 8) {
        Some(8)
    } else if covers(fw, fh, t.0, t.1, 4) {
        Some(4)
    } else if covers(fw, fh, t.0, t.1, 2) {
        Some(2)
    } else {
        None
    }
}

fn covers_at(fw: u32, fh: u32, tw: u32, th: u32, s: u64) -> (r: bool)
    requires
        s <= 8,
    ensures
        r == covers(fw, fh, tw, th, s as int),
{
    assert(tw * s <= 0xffff_ffff * 8 && th * s <= 0xffff_ffff * 8) by (nonlinear_arith)
        requires
            s <= 8,
            tw <= 0xffff_ffff,
            th <= 0xffff_ffff,
    ;
    tw as u64 * s <= fw as u64 || th as u64 * s <= fh as u64
}

pub fn shrink(fw: u32, fh: u32, target: (u32, u32), orient: u8) -> (r: Option<u32>)
    ensures
        r == shrink_for(fw, fh, target, orient),
{
    let (tw, th): (u32, u32) = if orient >= 5 {
        (target.1, target.0)
    } else {
        (target.0, target.1)
    };
    if covers_at(fw, fh, tw, th, 8) {
        Some(8)
    } else if covers_at(fw, fh, tw, th, 4) {
        Some(4)
    } else if covers_at(fw, fh, tw, th, 2) {
        Some(2)
    } else {
        None
    }
}

/// The size a codec is asked for: the image's own divided by `s`, rounded up.
pub fn shrunk_size(fw: u32, fh: u32, s: u32) -> (r: (u32, u32))
    requires
        2 <= s <= 8,
    ensures
        s * (r.0 - 1) < fw <= s * r.0 || (fw == 0 && r.0 == 0),
        s * (r.1 - 1) < fh <= s * r.1 || (fh == 0 && r.1 == 0),
{
    (ceil_div(fw, s), ceil_div(fh, s))
}

/// A shrunk picture still covers the screen that the image is fitted in: on both axes it has at least a
/// pixel for every one that is shown. A shrink twice as strong would not.
pub proof fn law_shrunk_covers(fw: u32, fh: u32, target: (u32, u32), orient: u8, w: int, h: int)
    requires
        fw > 0,
        fh > 0,
        shrink_for(fw, fh, target, orient) is Some,
        fw <= shrink_for(fw, fh, target, orient)->0 * w,
        fh <= shrink_for(fw, fh, target, orient)->0 * h,
    ensures
        ({
            let t = if across(orient) {
                (target.1, target.0)
            } else {
                target
            };
            let s = shrink_for(fw, fh, target, orient)->0;
            // Fitted by its width, it is shown as wide as the screen, and in proportion.
            &&& t.0 * fh <= t.1 * fw ==> t.0 <= w && t.0 * fh <= h * fw
            &&& t.1 * fw <= t.0 * fh ==> t.1 <= h && t.1 * fw <= w * fh
            &&& s < 8 ==> !covers(fw, fh, t.0, t.1, 2 * s)
        }),
{
    let t = if across(orient) {
        (target.1, target.0)
    } else {
        target
    };
    let s = shrink_for(fw, fh, target, orient)->0 as int;
    lemma_side_covered(fw as int, fh as int, t.0 as int, t.1 as int, s, w, h);
    lemma_side_covered(fh as int, fw as int, t.1 as int, t.0 as int, s, h, w);
}

proof fn lemma_side_covered(fw: int, fh: int, tw: int, th: int, s: int, w: int, h: int)
    requires
        fw > 0,
        fh > 0,
        tw >= 0,
        th >= 0,
        s > 0,
        tw * s <= fw || th * s <= fh,
        fw <= s * w,
        fh <= s * h,
    ensures
        tw * fh <= th * fw ==> tw <= w && tw * fh <= h * fw,
{
    if tw * fh <= th * fw {
        assert(tw * s <= fw) by (nonlinear_arith)
            requires
                fh > 0,
                fw > 0,
                s > 0,
                tw * s <= fw || th * s <= fh,
                tw * fh <= th * fw,
        ;
        assert(tw <= w) by (nonlinear_arith)
            requires
                tw * s <= fw,
                fw <= s * w,
                s > 0,
        ;
        assert(tw * fh <= h * fw) by (nonlinear_arith)
            requires
                tw * s <= fw,
                fh <= s * h,
                s > 0,
                tw >= 0,
                fh > 0,
                fw > 0,
        ;
    }
}

fn ceil_div(a: u32, s: u32) -> (r: u32)
    requires
        2 <= s <= 8,
    ensures
        s * (r - 1) < a <= s * r || (a == 0 && r == 0),
{
    let q: u32 = a / s;
    let m: u32 = a % s;
    proof {
        vstd::arithmetic::div_mod::lemma_fundamental_div_mod(a as int, s as int);
        assert(s * q == (s as int) * (a as int / s as int));
        assert(s * (q - 1) == s * q - s) by (nonlinear_arith);
        assert(s * (q + 1) == s * q + s) by (nonlinear_arith);
        assert(q <= a / 2) by (nonlinear_arith)
            requires
                q == a / s,
                s >= 2,
        ;
    }
    if m == 0 {
        q
    } else {
        q + 1
    }
}

/// How a file is decoded.
#[derive(Clone, Copy, PartialEq, Eq, Structural, Debug)]
pub enum Way {
    /// The codec is asked to scale it to this size.
    Scaled { w: u32, h: u32 },
    /// What the codec scaled is the picture: a preview.
    Preview,
    /// The image itself is decoded.
    Whole,
}

/// How a file is decoded, for a screen or not: `asked` says what came of asking the codec to scale
/// it, once that was done. A codec that cannot scale gives the image itself.
pub fn way(fw: u32, fh: u32, target: Option<(u32, u32)>, orient: u8, asked: Option<bool>) -> (r: Way)
    ensures
        asked == Some(true) ==> r == Way::Preview,
        asked == Some(false) ==> r == Way::Whole,
        asked is None ==> match target {
            None => r == Way::Whole,
            Some(t) => match shrink_for(fw, fh, t, orient) {
                None => r == Way::Whole,
                Some(s) => {
                    &&& r matches Way::Scaled { w, h }
                    &&& s * (w - 1) < fw <= s * w || (fw == 0 && w == 0)
                    &&& s * (h - 1) < fh <= s * h || (fh == 0 && h == 0)
                },
            },
        },
{
    match asked {
        Some(true) => Way::Preview,
        Some(false) => Way::Whole,
        None => match target {
            Some(t) => match shrink(fw, fh, t, orient) {
                Some(s) => {
                    let (w, h): (u32, u32) = shrunk_size(fw, fh, s);
                    Way::Scaled { w, h }
                },
                None => Way::Whole,
            },
            None => Way::Whole,
        },
    }
}

/// Whether the codec's nearest size is of use: it has one, and it is smaller than the image.
pub fn shrinks(hr: i32, w: u32, h: u32, fw: u32) -> (r: bool)
    ensures
        r == (hr >= 0 && w > 0 && h > 0 && w < fw),
{
    hr >= 0 && w > 0 && h > 0 && w < fw
}

/// Bytes per pixel of a format, none for one that is not taken.
pub open spec fn depth_of(f: Guid) -> Option<usize> {
    if f.spells(FMT_BGRA) || f.spells(FMT_BGR32) || f.spells(FMT_PBGRA) {
        Some(4)
    } else if f.spells(FMT_BGR24) {
        Some(3)
    } else if f.spells(FMT_GRAY8) {
        Some(1)
    } else {
        None
    }
}

/// Bytes per pixel of the format the codec gives, and whether its alpha is not premultiplied yet.
pub fn depth(f: &Guid) -> (r: Option<(usize, bool)>)
    ensures
        r is Some <==> depth_of(*f) is Some,
        r matches Some(d) ==> depth_of(*f) == Some(d.0) && d.1 == f.spells(FMT_BGRA),
{
    let straight = is_id(f, FMT_BGRA);
    if straight || is_id(f, FMT_BGR32) || is_id(f, FMT_PBGRA) {
        Some((4, straight))
    } else if is_id(f, FMT_BGR24) {
        Some((3, straight))
    } else if is_id(f, FMT_GRAY8) {
        Some((1, straight))
    } else {
        None
    }
}

/// Bytes of a row: whole groups of four.
pub fn row_bytes(w: u32, bpp: usize) -> (r: u64)
    requires
        bpp <= 4,
    ensures
        r % 4 == 0,
        w * bpp <= r < w * bpp + 4,
{
    assert(w * bpp <= 0xffff_ffff * 4) by (nonlinear_arith)
        requires
            bpp <= 4,
            w <= 0xffff_ffff,
    ;
    (w as u64 * bpp as u64 + 3) / 4 * 4
}

/// A colour byte times its alpha, rounded to the nearest.
pub open spec fn times_alpha(c: u8, a: u8) -> u8 {
    ((c * a + 127) / 255) as u8
}

/// The pixel that starts at byte `i`, as premultiplied BGRA.
pub open spec fn pbgra(raw: Seq<u8>, i: int, bpp: int, as_is: bool) -> Seq<u8> {
    if bpp == 3 {
        seq![raw[i], raw[i + 1], raw[i + 2], 255u8]
    } else if bpp == 1 {
        seq![raw[i], raw[i], raw[i], 255u8]
    } else if as_is {
        seq![raw[i], raw[i + 1], raw[i + 2], 255u8]
    } else {
        seq![
            times_alpha(raw[i], raw[i + 3]),
            times_alpha(raw[i + 1], raw[i + 3]),
            times_alpha(raw[i + 2], raw[i + 3]),
            raw[i + 3],
        ]
    }
}

/// The first `n` pixels of the row that starts at byte `at`.
pub open spec fn row_pbgra(raw: Seq<u8>, at: int, n: nat, bpp: int, as_is: bool) -> Seq<u8>
    decreases n,
{
    if n == 0 {
        seq![]
    } else {
        row_pbgra(raw, at, (n - 1) as nat, bpp, as_is) + pbgra(raw, at + (n - 1) * bpp, bpp, as_is)
    }
}

/// The first `n` rows of `w` pixels each.
pub open spec fn rows_pbgra(
    raw: Seq<u8>,
    w: nat,
    n: nat,
    stride: int,
    bpp: int,
    as_is: bool,
) -> Seq<u8>
    decreases n,
{
    if n == 0 {
        seq![]
    } else {
        rows_pbgra(raw, w, (n - 1) as nat, stride, bpp, as_is) + row_pbgra(
            raw,
            (n - 1) * stride,
            w,
            bpp,
            as_is,
        )
    }
}

/// The pixels of a codec as premultiplied BGRA, `h` rows of `w`. Four bytes that fill their rows and
/// have no alpha to speak of keep their colours.
pub open spec fn converted(
    raw: Seq<u8>,
    w: nat,
    h: nat,
    stride: int,
    bpp: int,
    straight_alpha: bool,
) -> Seq<u8> {
    rows_pbgra(raw, w, h, stride, bpp, stride == w * 4 && !straight_alpha)
}

fn times(c: u8, a: u8) -> (r: u8)
    ensures
        r == times_alpha(c, a),
{
    assert(0 <= c * a <= 255 * 255) by (nonlinear_arith)
        requires
            0 <= c <= 255,
            0 <= a <= 255,
    ;
    ((c as u32 * a as u32 + 127) / 255) as u8
}

/// A codec's pixels as premultiplied BGRA. Formats without alpha become opaque, four bytes without
/// one to speak of keep their colours.
pub fn to_pbgra(
    raw: &[u8],
    w: usize,
    h: usize,
    stride: usize,
    bpp: usize,
    straight_alpha: bool,
) -> (out: Vec<u8>)
    requires
        bpp == 1 || bpp == 3 || bpp == 4,
        w > 0,
        w * bpp <= stride,
        raw@.len() == stride * h,
    ensures
        out@ == converted(raw@, w as nat, h as nat, stride as int, bpp as int, straight_alpha),
        out@.len() == 4 * (w * h),
        forall|x: int, y: int|
            0 <= x < w && 0 <= y < h ==> pixel_of(
                raw@,
                y * stride + x * bpp,
                bpp as int,
                stride == w * 4 && !straight_alpha,
                #[trigger] pixel(out@, w as int, x, y),
            ),
{
    assert(raw.len() <= usize::MAX);
    let mut out: Vec<u8> = Vec::new();
    let as_is: bool = stride / 4 == w && stride % 4 == 0 && !straight_alpha;
    for y in 0..h
        invariant
            bpp == 1 || bpp == 3 || bpp == 4,
            w > 0,
            w * bpp <= stride,
            raw@.len() == stride * h <= usize::MAX,
            out@ == rows_pbgra(raw@, w as nat, y as nat, stride as int, bpp as int, as_is),
    {
        let ghost before = out@;
        assert(0 <= y * stride && (y + 1) * stride <= stride * h && (y + 1) * stride == y * stride
            + stride) by (nonlinear_arith)
            requires
                0 <= y < h,
                stride >= 0,
        ;
        let at: usize = y * stride;
        for x in 0..w
            invariant
                bpp == 1 || bpp == 3 || bpp == 4,
                w * bpp <= stride,
                at + stride <= raw@.len() <= usize::MAX,
                out@ == before + row_pbgra(raw@, at as int, x as nat, bpp as int, as_is),
        {
            assert(0 <= x * bpp && x * bpp + bpp <= w * bpp) by (nonlinear_arith)
                requires
                    0 <= x < w,
                    bpp >= 1,
            ;
            let i: usize = at + x * bpp;
            let ghost was = out@;
            if bpp == 1 {
                out.push(raw[i]);
                out.push(raw[i]);
                out.push(raw[i]);
                out.push(255);
            } else if bpp == 3 || as_is {
                out.push(raw[i]);
                out.push(raw[i + 1]);
                out.push(raw[i + 2]);
                out.push(255);
            } else {
                let a: u8 = raw[i + 3];
                out.push(times(raw[i], a));
                out.push(times(raw[i + 1], a));
                out.push(times(raw[i + 2], a));
                out.push(a);
            }
            assert(out@ =~= was + pbgra(raw@, i as int, bpp as int, as_is));
            assert(out@ =~= before + row_pbgra(raw@, at as int, (x + 1) as nat, bpp as int, as_is));
        }
    }
    proof {
        lemma_rows_len(raw@, w as nat, h as nat, stride as int, bpp as int, as_is);
        assert(4 * (w * h) == h * (4 * w)) by (nonlinear_arith);
        assert forall|x: int, y: int| 0 <= x < w && 0 <= y < h implies pixel_of(
            raw@,
            y * stride + x * bpp,
            bpp as int,
            stride == w * 4 && !straight_alpha,
            #[trigger] pixel(out@, w as int, x, y),
        ) by {
            law_pixel_by_pixel(
                raw@,
                w as nat,
                h as nat,
                stride as int,
                bpp as int,
                straight_alpha,
                x,
                y,
            );
        }
    }
    out
}

/// The four bytes of a pixel, in a picture `w` wide.
pub open spec fn pixel(px: Seq<u8>, w: int, x: int, y: int) -> Seq<u8> {
    px.subrange(4 * (y * w + x), 4 * (y * w + x) + 4)
}

/// The nearest byte to a colour times its alpha, in parts of 255.
pub open spec fn scaled_by(r: u8, c: u8, a: u8) -> bool {
    -127 <= 255 * r - c * a <= 127
}

/// A pixel is made of the bytes of the input from `i` on: three colours of its own, or the one
/// shade of a grey; opaque, or with the alpha that its colours are scaled by.
pub open spec fn pixel_of(raw: Seq<u8>, i: int, bpp: int, opaque: bool, p: Seq<u8>) -> bool {
    &&& p.len() == 4
    &&& bpp == 1 ==> p[0] == raw[i] && p[1] == raw[i] && p[2] == raw[i] && p[3] == 255
    &&& bpp == 3 || (bpp == 4 && opaque) ==> p[0] == raw[i] && p[1] == raw[i + 1] && p[2]
        == raw[i + 2] && p[3] == 255
    &&& bpp == 4 && !opaque ==> {
        &&& p[3] == raw[i + 3]
        &&& scaled_by(p[0], raw[i], raw[i + 3])
        &&& scaled_by(p[1], raw[i + 1], raw[i + 3])
        &&& scaled_by(p[2], raw[i + 2], raw[i + 3])
    }
}

proof fn lemma_row_len(raw: Seq<u8>, at: int, n: nat, bpp: int, as_is: bool)
    ensures
        row_pbgra(raw, at, n, bpp, as_is).len() == 4 * n,
    decreases n,
{
    if n > 0 {
        lemma_row_len(raw, at, (n - 1) as nat, bpp, as_is);
    }
}

proof fn lemma_rows_len(raw: Seq<u8>, w: nat, n: nat, stride: int, bpp: int, as_is: bool)
    ensures
        rows_pbgra(raw, w, n, stride, bpp, as_is).len() == n * (4 * w),
    decreases n,
{
    if n > 0 {
        lemma_rows_len(raw, w, (n - 1) as nat, stride, bpp, as_is);
        lemma_row_len(raw, (n - 1) * stride, w, bpp, as_is);
        assert(n * (4 * w) == (n - 1) * (4 * w) + 4 * w) by (nonlinear_arith);
    } else {
        assert(n * (4 * w) == 0) by (nonlinear_arith)
            requires
                n == 0,
        ;
    }
}

proof fn lemma_in_row(raw: Seq<u8>, at: int, n: nat, bpp: int, as_is: bool, x: int)
    requires
        0 <= x < n,
    ensures
        row_pbgra(raw, at, n, bpp, as_is).subrange(4 * x, 4 * x + 4) == pbgra(
            raw,
            at + x * bpp,
            bpp,
            as_is,
        ),
    decreases n,
{
    lemma_row_len(raw, at, n, bpp, as_is);
    lemma_row_len(raw, at, (n - 1) as nat, bpp, as_is);
    let all = row_pbgra(raw, at, n, bpp, as_is);
    let before = row_pbgra(raw, at, (n - 1) as nat, bpp, as_is);
    if x < n - 1 {
        lemma_in_row(raw, at, (n - 1) as nat, bpp, as_is, x);
        assert(all.subrange(4 * x, 4 * x + 4) =~= before.subrange(4 * x, 4 * x + 4));
    } else {
        assert(all.subrange(4 * x, 4 * x + 4) =~= pbgra(raw, at + (n - 1) * bpp, bpp, as_is));
    }
}

proof fn lemma_in_rows(
    raw: Seq<u8>,
    w: nat,
    n: nat,
    stride: int,
    bpp: int,
    as_is: bool,
    y: int,
)
    requires
        0 <= y < n,
    ensures
        y * (4 * w) + 4 * w <= n * (4 * w),
        rows_pbgra(raw, w, n, stride, bpp, as_is).subrange(y * (4 * w), y * (4 * w) + 4 * w)
            == row_pbgra(raw, y * stride, w, bpp, as_is),
    decreases n,
{
    lemma_rows_len(raw, w, n, stride, bpp, as_is);
    lemma_rows_len(raw, w, (n - 1) as nat, stride, bpp, as_is);
    lemma_row_len(raw, (n - 1) * stride, w, bpp, as_is);
    let all = rows_pbgra(raw, w, n, stride, bpp, as_is);
    let before = rows_pbgra(raw, w, (n - 1) as nat, stride, bpp, as_is);
    let (a, b) = (y * (4 * w), y * (4 * w) + 4 * w);
    assert(0 <= a && b <= n * (4 * w) && (n - 1) * (4 * w) + 4 * w == n * (4 * w)) by (nonlinear_arith)
        requires
            0 <= y < n,
            a == y * (4 * w),
            b == a + 4 * w,
    ;
    if y < n - 1 {
        lemma_in_rows(raw, w, (n - 1) as nat, stride, bpp, as_is, y);
        assert(all.subrange(a, b) =~= before.subrange(a, b));
    } else {
        assert(all.subrange(a, b) =~= row_pbgra(raw, (n - 1) * stride, w, bpp, as_is));
    }
}

proof fn lemma_scaled(c: u8, a: u8)
    ensures
        scaled_by(times_alpha(c, a), c, a),
{
    assert(0 <= c * a <= 255 * 255) by (nonlinear_arith)
        requires
            0 <= c <= 255,
            0 <= a <= 255,
    ;
}

/// Every pixel of the picture is made of the bytes of the input at its own row and column, and of no
/// others.
pub proof fn law_pixel_by_pixel(
    raw: Seq<u8>,
    w: nat,
    h: nat,
    stride: int,
    bpp: int,
    straight_alpha: bool,
    x: int,
    y: int,
)
    requires
        bpp == 1 || bpp == 3 || bpp == 4,
        0 <= x < w,
        0 <= y < h,
    ensures
        ({
            let out = converted(raw, w, h, stride, bpp, straight_alpha);
            let i = y * stride + x * bpp;
            let o = 4 * (y * w + x);
            let opaque = stride == 4 * w && !straight_alpha;
            &&& out.len() == 4 * (w * h)
            &&& 0 <= o && o + 4 <= out.len()
            &&& bpp == 1 ==> out[o] == raw[i] && out[o + 1] == raw[i] && out[o + 2] == raw[i]
            &&& bpp == 3 || (bpp == 4 && opaque) ==> out[o] == raw[i] && out[o + 1] == raw[i + 1]
                && out[o + 2] == raw[i + 2]
            &&& bpp < 4 || opaque ==> out[o + 3] == 255
            &&& bpp == 4 && !opaque ==> {
                let a = raw[i + 3];
                &&& out[o + 3] == a
                &&& -127 <= 255 * out[o] - raw[i] * a <= 127
                &&& -127 <= 255 * out[o + 1] - raw[i + 1] * a <= 127
                &&& -127 <= 255 * out[o + 2] - raw[i + 2] * a <= 127
            }
            &&& pixel_of(raw, i, bpp, opaque, pixel(out, w as int, x, y))
        }),
{
    let as_is = stride == w * 4 && !straight_alpha;
    let out = converted(raw, w, h, stride, bpp, straight_alpha);
    let i = y * stride + x * bpp;
    let o = 4 * (y * w + x);
    lemma_rows_len(raw, w, h, stride, bpp, as_is);
    lemma_in_rows(raw, w, h, stride, bpp, as_is, y);
    lemma_row_len(raw, y * stride, w, bpp, as_is);
    lemma_in_row(raw, y * stride, w, bpp, as_is, x);
    let row = row_pbgra(raw, y * stride, w, bpp, as_is);
    assert(o == y * (4 * w) + 4 * x && h * (4 * w) == 4 * (w * h)) by (nonlinear_arith)
        requires
            o == 4 * (y * w + x),
    ;
    assert(0 <= y * (4 * w)) by (nonlinear_arith)
        requires
            0 <= y,
    ;
    let p = pbgra(raw, i, bpp, as_is);
    assert(out.subrange(o, o + 4) =~= row.subrange(4 * x, 4 * x + 4));
    assert(pixel(out, w as int, x, y) == p);
    assert(out[o] == p[0] && out[o + 1] == p[1] && out[o + 2] == p[2] && out[o + 3] == p[3]) by {
        let s = out.subrange(o, o + 4);
        assert(s[0] == out[o] && s[1] == out[o + 1] && s[2] == out[o + 2] && s[3] == out[o + 3]);
    }
    if bpp == 4 && !as_is {
        lemma_scaled(raw[i], raw[i + 3]);
        lemma_scaled(raw[i + 1], raw[i + 3]);
        lemma_scaled(raw[i + 2], raw[i + 3]);
    }
}

/// Opaque pixels come out as they went in, and clear ones black and clear.
pub proof fn law_premultiplied(c: u8, a: u8)
    ensures
        times_alpha(c, 255) == c,
        times_alpha(c, 0) == 0,
        times_alpha(c, a) <= a,
{
    assert(c * a <= 255 * a) by (nonlinear_arith)
        requires
            0 <= c <= 255,
            0 <= a <= 255,
    ;
    assert(0 <= c * a) by (nonlinear_arith)
        requires
            0 <= c,
            0 <= a,
    ;
    assert((255 * a + 127) / 255 <= a);
}

/// Every pixel of four bytes has alpha zero.
pub open spec fn all_clear(px: Seq<u8>) -> bool {
    forall|k: int| 0 <= k && 4 * k + 3 < px.len() ==> #[trigger] px[4 * k + 3] == 0
}

/// The pixels with every alpha opaque.
pub open spec fn opaque_px(px: Seq<u8>) -> Seq<u8> {
    Seq::new(
        px.len(),
        |i: int|
            if i % 4 == 3 {
                255u8
            } else {
                px[i]
            },
    )
}

/// An opaque image's thumbnail can come with alpha left at zero: then it is made opaque.
pub fn mend_alpha(px: &mut Vec<u8>)
    requires
        old(px)@.len() % 4 == 0,
    ensures
        final(px)@ == (if all_clear(old(px)@) {
            opaque_px(old(px)@)
        } else {
            old(px)@
        }),
{
    let n: usize = px.len() / 4;
    for k in 0..n
        invariant
            4 * n == px@.len() <= usize::MAX,
            px@ == old(px)@,
            forall|j: int| 0 <= j < k ==> #[trigger] px@[4 * j + 3] == 0,
    {
        if px[4 * k + 3] != 0 {
            assert(px@[4 * (k as int) + 3] != 0);
            return;
        }
    }
    assert(all_clear(old(px)@)) by {
        assert forall|k: int| 0 <= k && 4 * k + 3 < px@.len() implies #[trigger] px@[4 * k + 3]
            == 0 by {
            assert(k < n);
        }
    }
    make_opaque(px);
}

/// Every pixel opaque: a picture drawn by GDI has its alpha left at zero.
pub fn make_opaque(px: &mut Vec<u8>)
    requires
        old(px)@.len() % 4 == 0,
    ensures
        final(px)@ == opaque_px(old(px)@),
{
    let n: usize = px.len() / 4;
    for k in 0..n
        invariant
            4 * n == px@.len() == old(px)@.len() <= usize::MAX,
            forall|i: int|
                0 <= i < px@.len() ==> #[trigger] px@[i] == (if i % 4 == 3 && i < 4 * k {
                    255u8
                } else {
                    old(px)@[i]
                }),
    {
        px.set(4 * k + 3, 255);
    }
    assert(px@ =~= opaque_px(old(px)@));
}

/// A rectangle of rows cut out of rows `w` pixels wide: the first `n`.
pub open spec fn cut_rows(px: Seq<u8>, w: int, x0: int, y0: int, cw: int, n: nat) -> Seq<u8>
    decreases n,
{
    if n == 0 {
        seq![]
    } else {
        let at = ((y0 + n - 1) * w + x0) * 4;
        cut_rows(px, w, x0, y0, cw, (n - 1) as nat) + px.subrange(at, at + cw * 4)
    }
}

/// The smaller of two.
pub open spec fn smaller(a: u32, b: u32) -> u32 {
    if a < b {
        a
    } else {
        b
    }
}

/// The centre of a picture `w` by `h`, `cw` by `ch` at most: a thumbnail in a box of another shape
/// carries black bars, and they are cut away.
pub fn crop(px: &Vec<u8>, w: u32, h: u32, cw: u32, ch: u32) -> (r: (u32, u32, Vec<u8>))
    requires
        px@.len() == w * h * 4,
        w * h * 4 <= u32::MAX,
    ensures
        r.0 == smaller(cw, w),
        r.1 == smaller(ch, h),
        r.2@ == cut_rows(
            px@,
            w as int,
            (w - r.0) / 2,
            (h - r.1) / 2,
            r.0 as int,
            r.1 as nat,
        ),
        forall|x: int, y: int|
            0 <= x < r.0 && 0 <= y < r.1 ==> #[trigger] pixel(r.2@, r.0 as int, x, y) == pixel(
                px@,
                w as int,
                (w - r.0) / 2 + x,
                (h - r.1) / 2 + y,
            ),
{
    let cw: u32 = if cw < w {
        cw
    } else {
        w
    };
    let ch: u32 = if ch < h {
        ch
    } else {
        h
    };
    let x0: u32 = (w - cw) / 2;
    let y0: u32 = (h - ch) / 2;
    let mut out: Vec<u8> = Vec::new();
    let all: &[u8] = px.as_slice();
    for y in 0..ch
        invariant
            all@ == px@,
            px@.len() == w * h * 4 <= u32::MAX,
            x0 + cw <= w,
            y0 + ch <= h,
            out@ == cut_rows(px@, w as int, x0 as int, y0 as int, cw as int, y as nat),
    {
        let ghost before = out@;
        assert(0 <= (y0 + y) * w && ((y0 + y) * w + x0) * 4 + cw * 4 <= w * h * 4 && (y0 + y) * w
            + x0 <= w * h) by (nonlinear_arith)
            requires
                0 <= y0 + y < h,
                0 <= x0,
                x0 + cw <= w,
                w >= 0,
        ;
        let at: usize = ((y0 + y) * w + x0) as usize * 4;
        let end: usize = at + cw as usize * 4;
        crate::bytes::put_all(&mut out, &all[at..end]);
        assert(out@ =~= before + px@.subrange(at as int, end as int));
    }
    proof {
        assert(4 * ((y0 + ch) * w) <= w * h * 4) by (nonlinear_arith)
            requires
                0 <= y0 + ch <= h,
                0 <= w,
        ;
        assert forall|x: int, y: int| 0 <= x < cw && 0 <= y < ch implies #[trigger] pixel(
            out@,
            cw as int,
            x,
            y,
        ) == pixel(px@, w as int, (w - cw) / 2 + x, (h - ch) / 2 + y) by {
            law_cut_out(px@, w as int, x0 as int, y0 as int, cw as int, ch as nat, x, y);
        }
    }
    (cw, ch, out)
}

/// A stand-in the shell made: it is upright already, stands for the image as displayed, and has no
/// orientation of its own.
pub fn upright(w: u32, h: u32, px: Vec<u8>, fw: u32, fh: u32, orient: u8, id: u64) -> (r: Img)
    ensures
        r.w == w && r.h == h && r.px == px,
        (r.full_w, r.full_h) == (if across(orient) {
            (fh, fw)
        } else {
            (fw, fh)
        }),
        r.orient == 1,
        !r.full && r.thumb,
        r.id == id,
{
    let (dw, dh): (u32, u32) = if orient >= 5 {
        (fh, fw)
    } else {
        (fw, fh)
    };
    Img { w, h, px, full_w: dw, full_h: dh, orient: 1, full: false, thumb: true, id }
}

/// The stand-in a camera embeds: it is stored as the image is, and is turned as the image is.
pub fn embedded(w: u32, h: u32, px: Vec<u8>, fw: u32, fh: u32, orient: u8, id: u64) -> (r: Img)
    ensures
        r == (Img {
            w,
            h,
            px,
            full_w: fw,
            full_h: fh,
            orient,
            full: false,
            thumb: true,
            id,
        }),
{
    Img { w, h, px, full_w: fw, full_h: fh, orient, full: false, thumb: true, id }
}

/// Where a stand-in can be had.
#[derive(Clone, Copy, PartialEq, Eq, Structural, Debug)]
pub enum Source {
    /// Explorer's cache files, read directly.
    Cache,
    /// The shell's own lookup.
    Shell,
    /// The small picture a camera embeds.
    Embedded,
}

/// What the search for a stand-in does next.
#[derive(Clone, Copy, PartialEq, Eq, Structural, Debug)]
pub enum Search {
    Ask(Source),
    /// One the shell made was found.
    Upright,
    /// The embedded one was found.
    Stored,
    Missing,
}

/// The search for a stand-in: which source was asked last, and whether it had one. The quickest
/// is asked first, the next only where one had nothing.
pub fn stand_in(asked: Option<Source>, found: bool) -> (r: Search)
    ensures
        r == (match asked {
            None => Search::Ask(Source::Cache),
            Some(Source::Cache) => if found {
                Search::Upright
            } else {
                Search::Ask(Source::Shell)
            },
            Some(Source::Shell) => if found {
                Search::Upright
            } else {
                Search::Ask(Source::Embedded)
            },
            Some(Source::Embedded) => if found {
                Search::Stored
            } else {
                Search::Missing
            },
        }),
{
    match asked {
        None => Search::Ask(Source::Cache),
        Some(Source::Embedded) => if found {
            Search::Stored
        } else {
            Search::Missing
        },
        Some(s) => if found {
            Search::Upright
        } else if s == Source::Cache {
            Search::Ask(Source::Shell)
        } else {
            Search::Ask(Source::Embedded)
        },
    }
}

/// Whether a small picture held in memory has a size to be taken.
pub fn small_size(w: u32, h: u32) -> (r: Result<(), String>)
    ensures
        r is Ok <==> 0 < w <= 4096 && 0 < h <= 4096,
        r matches Err(e) ==> e@ == "odd size"@,
{
    if w == 0 || h == 0 || w > 4096 || h > 4096 {
        Err("odd size".to_owned())
    } else {
        Ok(())
    }
}

/// Whether there is anything to decode.
pub fn some_size(w: u32, h: u32) -> (r: Result<(), String>)
    ensures
        r is Ok <==> w > 0 && h > 0,
        r matches Err(e) ==> e@ == "empty image"@,
{
    if w == 0 || h == 0 {
        Err("empty image".to_owned())
    } else {
        Ok(())
    }
}

/// Whether the GPU could not hold an image of this size.
pub fn too_large(fw: u32, fh: u32, max_dim: u32) -> (r: bool)
    ensures
        r == (fw > max_dim || fh > max_dim),
{
    fw > max_dim || fh > max_dim
}

/// A side that the GPU can hold: at most its limit, and at least one pixel.
pub open spec fn held(side: u32, max_dim: u32) -> u32 {
    let n = if side < max_dim {
        side
    } else {
        max_dim
    };
    if n < 1 {
        1
    } else {
        n
    }
}

fn held_side(side: u32, max_dim: u32) -> (r: u32)
    ensures
        r == held(side, max_dim),
{
    let n: u32 = if side < max_dim {
        side
    } else {
        max_dim
    };
    if n < 1 {
        1
    } else {
        n
    }
}

/// The size a full decode is made at: the image's own, shrunk only where the GPU could not hold it.
/// `shrunk` is the size that brings its longer side to the limit, as floating point has it.
pub fn decode_size(fw: u32, fh: u32, max_dim: u32, shrunk: (u32, u32)) -> (r: (u32, u32))
    ensures
        fw <= max_dim && fh <= max_dim ==> r == (fw, fh),
        fw > max_dim || fh > max_dim ==> r == (held(shrunk.0, max_dim), held(shrunk.1, max_dim)),
        max_dim > 0 ==> r.0 <= max_dim && r.1 <= max_dim,
        fw > 0 && fh > 0 ==> r.0 > 0 && r.1 > 0,
{
    if too_large(fw, fh, max_dim) {
        (held_side(shrunk.0, max_dim), held_side(shrunk.1, max_dim))
    } else {
        (fw, fh)
    }
}

/// The picture that a full decode gives.
pub fn whole(w: u32, h: u32, px: Vec<u8>, fw: u32, fh: u32, orient: u8, id: u64) -> (r: Img)
    requires
        px@.len() == 4 * w * h,
    ensures
        r == (Img {
            w,
            h,
            px,
            full_w: fw,
            full_h: fh,
            orient,
            full: true,
            thumb: false,
            id,
        }),
        r.px@.len() == 4 * r.w * r.h,
{
    Img { w, h, px, full_w: fw, full_h: fh, orient, full: true, thumb: false, id }
}

/// The picture that the codec scaled down.
pub fn preview(w: u32, h: u32, px: Vec<u8>, fw: u32, fh: u32, orient: u8, id: u64) -> (r: Img)
    ensures
        r == (Img {
            w,
            h,
            px,
            full_w: fw,
            full_h: fh,
            orient,
            full: false,
            thumb: false,
            id,
        }),
{
    Img { w, h, px, full_w: fw, full_h: fh, orient, full: false, thumb: false, id }
}

/// What a full decode does next.
#[derive(Clone, Copy, PartialEq, Eq, Structural)]
pub enum Band {
    /// Copy `rows` rows from row `y` on, to byte `at` of the picture: `bytes` of them.
    Copy { y: u32, rows: u32, at: u64, bytes: u64 },
    /// Nobody wants the image any more.
    Cancelled,
    Done,
}

/// A full decode under way: `y` rows of `h` are there, `w` pixels each.
pub struct Decode {
    pub w: u32,
    pub h: u32,
    pub y: u32,
}

impl Decode {
    pub open spec fn wf(self) -> bool {
        self.y <= self.h && self.w * self.h * 4 <= u64::MAX
    }

    pub fn new(w: u32, h: u32) -> (r: Decode)
        requires
            w * h * 4 <= u64::MAX,
        ensures
            r.wf(),
            r.w == w && r.h == h && r.y == 0,
    {
        Decode { w, h, y: 0 }
    }

    /// The next rows, at most a band of them, as long as the image is still wanted.
    pub fn next(&mut self, wanted: bool) -> (r: Band)
        requires
            old(self).wf(),
        ensures
            final(self).wf(),
            final(self).w == old(self).w && final(self).h == old(self).h,
            old(self).y == old(self).h ==> r == Band::Done && final(self).y == old(self).y,
            old(self).y < old(self).h && !wanted ==> r == Band::Cancelled && final(self).y == old(
                self,
            ).y,
            old(self).y < old(self).h && wanted ==> {
                let rows = if old(self).h - old(self).y < BAND {
                    (old(self).h - old(self).y) as u32
                } else {
                    BAND
                };
                &&& final(self).y == old(self).y + rows
                &&& r matches Band::Copy { y, rows: n, at, bytes }
                &&& y == old(self).y
                &&& n == rows
                &&& at == old(self).y * (old(self).w * 4)
                &&& bytes == rows * (old(self).w * 4)
                &&& n <= 256 && (n < 256 ==> final(self).y == final(self).h)
            },
    {
        if self.y >= self.h {
            return Band::Done;
        }
        if !wanted {
            return Band::Cancelled;
        }
        let y: u32 = self.y;
        let left: u32 = self.h - y;
        let rows: u32 = if left < BAND {
            left
        } else {
            BAND
        };
        assert(0 <= y * (self.w * 4) <= self.w * self.h * 4) by (nonlinear_arith)
            requires
                0 <= y <= self.h,
                0 <= self.w,
        ;
        assert(0 <= rows * (self.w * 4) <= self.w * self.h * 4) by (nonlinear_arith)
            requires
                0 <= rows <= self.h,
                0 <= self.w,
        ;
        let stride: u64 = self.w as u64 * 4;
        self.y = y + rows;
        Band::Copy { y, rows, at: y as u64 * stride, bytes: rows as u64 * stride }
    }
}

/// Bands copied one after another leave no gap: each starts where the one before ended, and the
/// last ends with the picture.
pub proof fn law_bands_meet(w: u32, h: u32, y: u32, rows: u32)
    requires
        y + rows <= h,
    ensures
        y * (w * 4) + rows * (w * 4) == (y + rows) * (w * 4),
        y + rows == h ==> (y + rows) * (w * 4) == w * h * 4,
{
    assert(y * (w * 4) + rows * (w * 4) == (y + rows) * (w * 4)) by (nonlinear_arith);
    assert(h * (w * 4) == w * h * 4) by (nonlinear_arith);
}

/// How good pixels are: a full image beats a preview, and a preview a stand-in.
pub proof fn law_rank(thumb: bool)
    ensures
        rank_of(true, thumb) > rank_of(false, false) > rank_of(false, true),
        rank_of(true, thumb) == 2 && rank_of(false, true) == 0,
{
}

/// A codec shrinks an image by the largest of 8, 4 and 2 that still leaves a pixel for every one of the
/// screen, along the side by which the image is fitted; by none where it is less than twice the screen
/// on both. An orientation from 5 on lays the screen across the image.
pub proof fn law_largest_shrink(fw: u32, fh: u32, target: (u32, u32), orient: u8)
    ensures
        ({
            let r = shrink_for(fw, fh, target, orient);
            let (tw, th) = if orient >= 5 {
                (target.1 as int, target.0 as int)
            } else {
                (target.0 as int, target.1 as int)
            };
            &&& r is None <==> 2 * tw > fw && 2 * th > fh
            &&& r matches Some(s) ==> {
                &&& s == 2 || s == 4 || s == 8
                &&& s * tw <= fw || s * th <= fh
                &&& s == 2 ==> 4 * tw > fw && 4 * th > fh
                &&& s == 4 ==> 8 * tw > fw && 8 * th > fh
            }
        }),
{
}

/// Pixels made opaque keep their colours.
pub proof fn law_opaque(px: Seq<u8>, i: int)
    requires
        0 <= i < px.len(),
    ensures
        opaque_px(px).len() == px.len(),
        i % 4 == 3 ==> opaque_px(px)[i] == 255,
        i % 4 != 3 ==> opaque_px(px)[i] == px[i],
        all_clear(px) && i % 4 == 3 ==> px[i] == 0,
{
    if i % 4 == 3 {
        assert(4 * (i / 4) + 3 == i);
    }
}

proof fn lemma_cut_len(px: Seq<u8>, w: int, x0: int, y0: int, cw: int, n: nat)
    requires
        0 <= x0,
        0 <= y0,
        0 <= cw,
        x0 + cw <= w,
        4 * ((y0 + n) * w) <= px.len(),
    ensures
        cut_rows(px, w, x0, y0, cw, n).len() == n * (4 * cw),
        n > 0 ==> 0 <= ((y0 + n - 1) * w + x0) * 4 && ((y0 + n - 1) * w + x0) * 4 + cw * 4 <= px.len(),
    decreases n,
{
    if n > 0 {
        assert((y0 + n) * w == (y0 + n - 1) * w + w && 0 <= (y0 + n - 1) * w && n * (4 * cw) == (n - 1)
            * (4 * cw) + 4 * cw) by (nonlinear_arith)
            requires
                n > 0,
                y0 >= 0,
                w >= 0,
        ;
        lemma_cut_len(px, w, x0, y0, cw, (n - 1) as nat);
    } else {
        assert(n * (4 * cw) == 0) by (nonlinear_arith)
            requires
                n == 0,
        ;
    }
}

/// A part cut out of a picture is the picture's own pixels, each as far from the part's corner as it was
/// from where the part starts.
pub proof fn law_cut_out(px: Seq<u8>, w: int, x0: int, y0: int, cw: int, n: nat, x: int, y: int)
    requires
        0 <= x0,
        0 <= y0,
        x0 + cw <= w,
        4 * ((y0 + n) * w) <= px.len(),
        0 <= x < cw,
        0 <= y < n,
    ensures
        cut_rows(px, w, x0, y0, cw, n).len() == 4 * (n * cw),
        pixel(cut_rows(px, w, x0, y0, cw, n), cw, x, y) == pixel(px, w, x0 + x, y0 + y),
    decreases n,
{
    let all = cut_rows(px, w, x0, y0, cw, n);
    let before = cut_rows(px, w, x0, y0, cw, (n - 1) as nat);
    assert((y0 + n) * w == (y0 + n - 1) * w + w && 4 * (n * cw) == n * (4 * cw)) by (nonlinear_arith);
    lemma_cut_len(px, w, x0, y0, cw, n);
    lemma_cut_len(px, w, x0, y0, cw, (n - 1) as nat);
    let o = 4 * (y * cw + x);
    let at = ((y0 + n - 1) * w + x0) * 4;
    if y < n - 1 {
        law_cut_out(px, w, x0, y0, cw, (n - 1) as nat, x, y);
        assert(0 <= o && o + 4 <= (n - 1) * (4 * cw)) by (nonlinear_arith)
            requires
                0 <= x < cw,
                0 <= y < n - 1,
                o == 4 * (y * cw + x),
        ;
        assert(all.subrange(o, o + 4) =~= before.subrange(o, o + 4));
    } else {
        assert(o == (n - 1) * (4 * cw) + 4 * x) by (nonlinear_arith)
            requires
                o == 4 * (y * cw + x),
                y == n - 1,
        ;
        let row = px.subrange(at, at + cw * 4);
        let p = 4 * ((y0 + y) * w + (x0 + x));
        assert(p == at + 4 * x) by (nonlinear_arith)
            requires
                p == 4 * ((y0 + y) * w + (x0 + x)),
                at == ((y0 + n - 1) * w + x0) * 4,
                y == n - 1,
        ;
        assert(all.subrange(o, o + 4) =~= row.subrange(4 * x, 4 * x + 4));
        assert(row.subrange(4 * x, 4 * x + 4) =~= px.subrange(p, p + 4));
    }
}

/// The formats that are taken, by their identifiers: those with four bytes, the one with three and the one
/// with one; no other.
pub proof fn law_formats(f: Guid)
    ensures
        f.spells(0x6fddc324_4e03_4bfe_b185_3d77768dc910) ==> depth_of(f) == Some(4usize),
        f.spells(0x6fddc324_4e03_4bfe_b185_3d77768dc90f) ==> depth_of(f) == Some(4usize),
        f.spells(0x6fddc324_4e03_4bfe_b185_3d77768dc90e) ==> depth_of(f) == Some(4usize),
        f.spells(0x6fddc324_4e03_4bfe_b185_3d77768dc90c) ==> depth_of(f) == Some(3usize),
        f.spells(0x6fddc324_4e03_4bfe_b185_3d77768dc908) ==> depth_of(f) == Some(1usize),
        depth_of(f) is Some ==> f.data1 == 0x6fddc324 && f.data2 == 0x4e03 && f.data3 == 0x4bfe,
{
}

/// A side is kept where the GPU can hold it, and is never less than a pixel.
pub proof fn law_held(side: u32, max_dim: u32)
    ensures
        1 <= side <= max_dim ==> held(side, max_dim) == side,
        side > max_dim >= 1 ==> held(side, max_dim) == max_dim,
        held(side, max_dim) >= 1,
{
}

} // verus!
