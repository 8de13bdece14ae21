//! Pixels on their way to the GPU: the staging buffer they wait in, the textures they go to, the memory
//! those live in, and the chain of smaller pictures made from each photo.

use crate::textures::IMAGE_SLOTS;
use vstd::prelude::*;

verus! {

pub const SLOT_TIP: usize = IMAGE_SLOTS + 4;

/// The photos, the caption, the pill, the card, the bar and the tip.
pub const SLOTS: usize = IMAGE_SLOTS + 5;

/// The staging buffer kept while hidden, and the least one made: a thumbnail, a caption and a
/// screen-sized preview fit.
pub const KEPT_STAGING: u64 = 0x0100_0000;

/// Textures up to this much memory (a thumbnail, the caption, the toolbar) get a block this size, handed
/// back to a pool rather than freed.
pub const SMALL_BLOCK: u64 = 0x0010_0000;

pub const SMALL_KEPT: usize = 8;

/// Staging kept in the working set while hidden: what the first frame of an open writes.
pub const WARM_STAGING: u64 = 0x0010_0000;

/// The most that is ever staged.
pub const MAX_STAGED: u64 = 0x2000_0000_0000_0000;

/// A texture: its size, how many levels it has, and the memory it lives in, with its type where that is
/// a block of the pool.
#[derive(Clone, Copy, PartialEq, Eq, Structural, Debug)]
pub struct Texture {
    pub w: u32,
    pub h: u32,
    pub mips: u32,
    pub mem: u64,
    pub pooled: Option<u32>,
}

/// The staging buffer: its size, and how much of it waits for the next frame.
#[derive(Clone, Copy, PartialEq, Eq, Structural, Debug)]
pub struct Staging {
    pub size: u64,
    pub used: u64,
}

/// Pixels waiting in the staging buffer.
#[derive(Clone, Copy, PartialEq, Eq, Structural, Debug)]
pub struct Upload {
    pub slot: usize,
    pub offset: u64,
    pub len: u64,
}

impl Upload {
    pub open spec fn end(self) -> int {
        self.offset + self.len
    }
}

/// A free block of the pool.
#[derive(Clone, Copy, PartialEq, Eq, Structural, Debug)]
pub struct Block {
    pub mem: u64,
    pub ty: u32,
}

/// Where a texture's pixels go.
#[derive(Clone, Copy, PartialEq, Eq, Structural, Debug)]
pub enum Placing {
    /// Into the texture that is there.
    Reuse,
    /// Into a new one with this many levels; the old one, where there was one, is to go.
    Make { old: Option<Texture>, mips: u32 },
}

/// Where a texture's memory comes from.
#[derive(Clone, Copy, PartialEq, Eq, Structural, Debug)]
pub enum Memory {
    Pooled(u64),
    /// It is to be allocated, this much of it.
    Allocate(u64),
}

/// The number of halvings down to nothing: how many levels a chain from this side has.
pub open spec fn levels(n: nat) -> nat
    decreases n,
{
    if n == 0 {
        0
    } else {
        1 + levels(n / 2)
    }
}

proof fn lemma_levels(n: nat)
    ensures
        n < 0x1_0000_0000 ==> levels(n) <= 32,
        n < 0x10000 ==> levels(n) <= 16,
        n < 0x100 ==> levels(n) <= 8,
        n < 0x10 ==> levels(n) <= 4,
    decreases n,
{
    reveal_with_fuel(levels, 5);
    if n < 0x10 {
    } else if n < 0x100 {
        lemma_levels(n / 16);
        assert(levels(n) == 4 + levels(n / 2 / 2 / 2 / 2));
    } else if n < 0x10000 {
        lemma_levels(n / 16 / 16);
        assert(levels(n) == 4 + levels(n / 2 / 2 / 2 / 2));
        assert(levels(n / 16) == 4 + levels(n / 16 / 2 / 2 / 2 / 2));
    } else if n < 0x1_0000_0000 {
        lemma_levels(n / 16 / 16 / 16 / 16);
        assert(levels(n) == 4 + levels(n / 2 / 2 / 2 / 2));
        assert(levels(n / 16) == 4 + levels(n / 16 / 2 / 2 / 2 / 2));
        assert(levels(n / 16 / 16) == 4 + levels(n / 16 / 16 / 2 / 2 / 2 / 2));
        assert(levels(n / 16 / 16 / 16) == 4 + levels(n / 16 / 16 / 16 / 2 / 2 / 2 / 2));
    }
}

pub open spec fn larger(w: u32, h: u32) -> u32 {
    if w > h {
        w
    } else {
        h
    }
}

/// How many levels a texture has: a whole chain, or one.
pub open spec fn mips_of(w: u32, h: u32, mipmapped: bool) -> nat {
    if mipmapped {
        levels(larger(w, h) as nat)
    } else {
        1
    }
}

fn count_mips(w: u32, h: u32, mipmapped: bool) -> (r: u32)
    ensures
        r == mips_of(w, h, mipmapped),
{
    if !mipmapped {
        return 1;
    }
    let mut n: u32 = if w > h {
        w
    } else {
        h
    };
    proof {
        lemma_levels(n as nat);
    }
    let mut r: u32 = 0;
    while n > 0
        invariant
            r + levels(n as nat) == levels(larger(w, h) as nat),
            levels(larger(w, h) as nat) <= 32,
        decreases n,
    {
        n = n / 2;
        r = r + 1;
    }
    r
}

/// The uploads of the other slots.
pub open spec fn without(s: Seq<Upload>, slot: usize) -> Seq<Upload>
    decreases s.len(),
{
    if s.len() == 0 {
        s
    } else if s.last().slot == slot {
        without(s.drop_last(), slot)
    } else {
        without(s.drop_last(), slot).push(s.last())
    }
}

/// No two of them are for one slot, nor share a byte of the staging buffer.
pub open spec fn apart(s: Seq<Upload>) -> bool {
    forall|i: int, j: int|
        0 <= i < j < s.len() ==> (#[trigger] s[i]).slot != (#[trigger] s[j]).slot && s[i].end()
            <= s[j].offset
}

proof fn lemma_without(s: Seq<Upload>, slot: usize)
    ensures
        without(s, slot).len() <= s.len(),
        forall|i: int|
            0 <= i < without(s, slot).len() ==> (#[trigger] without(s, slot)[i]).slot != slot
                && s.contains(without(s, slot)[i]),
        apart(s) ==> apart(without(s, slot)),
    decreases s.len(),
{
    if s.len() > 0 {
        let t = s.drop_last();
        lemma_without(t, slot);
        let r = without(t, slot);
        assert forall|i: int| 0 <= i < r.len() implies s.contains(#[trigger] r[i]) by {
            let k = choose|k: int| 0 <= k < t.len() && t[k] == r[i];
            assert(s[k] == r[i]);
        }
        assert(s[s.len() - 1] == s.last());
        if apart(s) {
            assert(apart(t));
            assert forall|i: int| 0 <= i < r.len() implies (#[trigger] r[i]).slot != s.last().slot
                && r[i].end() <= s.last().offset by {
                let k = choose|k: int| 0 <= k < t.len() && t[k] == r[i];
                assert(s[k] == r[i]);
            }
        }
    }
}

/// The next multiple of sixteen: copies want aligned offsets.
pub open spec fn aligned(n: int) -> int {
    (n + 15) / 16 * 16
}

/// A buffer for this much: the least power of two that holds it, and never a small one.
pub open spec fn roomy(size: u64, need: int) -> bool {
    &&& exists|k: nat| size == KEPT_STAGING * vstd::arithmetic::power2::pow2(k)
    &&& size >= need
    &&& size == KEPT_STAGING || size < 2 * need
}

/// What is on the GPU and on its way there.
pub struct Gpu {
    pub tex: Vec<Option<Texture>>,
    pub staging: Option<Staging>,
    pub uploads: Vec<Upload>,
    /// Free blocks of `SMALL_BLOCK` bytes.
    pub small: Vec<Block>,
}

impl Gpu {
    pub open spec fn wf(self) -> bool {
        &&& self.tex@.len() == SLOTS
        &&& forall|i: int|
            0 <= i < SLOTS && #[trigger] self.tex@[i] is Some ==> self.tex@[i]->0.mips >= 1
        &&& self.small@.len() <= SMALL_KEPT
        &&& apart(self.uploads@)
        &&& self.uploads@.len() > 0 ==> self.staging is Some
        &&& self.staging is Some ==> {
            let s = self.staging->0;
            &&& s.used <= s.size <= 2 * MAX_STAGED
            &&& s.size % 16 == 0 && s.used % 16 == 0
        }
        &&& forall|i: int|
            0 <= i < self.uploads@.len() ==> (#[trigger] self.uploads@[i]).slot < SLOTS
                && self.uploads@[i].offset % 16 == 0 && self.uploads@[i].end()
                <= self.staging->0.used
    }

    /// How much of the staging buffer waits for the next frame.
    pub open spec fn waiting(self) -> u64 {
        match self.staging {
            Some(s) => s.used,
            None => 0,
        }
    }

    pub fn new() -> (r: Gpu)
        ensures
            r.wf(),
            forall|i: int| 0 <= i < SLOTS ==> #[trigger] r.tex@[i] is None,
            r.staging is None,
            r.uploads@.len() == 0,
            r.small@.len() == 0,
    {
        let mut tex: Vec<Option<Texture>> = Vec::new();
        for i in 0..SLOTS
            invariant
                tex@.len() == i,
                forall|j: int| 0 <= j < i ==> #[trigger] tex@[j] is None,
        {
            tex.push(None);
        }
        Gpu { tex, staging: None, uploads: Vec::new(), small: Vec::new() }
    }

    pub fn has_texture(&self, slot: usize) -> (r: bool)
        requires
            self.wf(),
            slot < SLOTS,
        ensures
            r == self.tex@[slot as int] is Some,
    {
        self.tex[slot].is_some()
    }

    pub fn size_of(&self, slot: usize) -> (r: (u32, u32))
        requires
            self.wf(),
            slot < SLOTS,
        ensures
            r == (match self.tex@[slot as int] {
                Some(t) => (t.w, t.h),
                None => (0u32, 0u32),
            }),
    {
        match self.tex[slot] {
            Some(t) => (t.w, t.h),
            None => (0, 0),
        }
    }

    fn forget_uploads(&mut self, slot: usize)
        requires
            old(self).wf(),
        ensures
            final(self).wf(),
            final(self).uploads@ == without(old(self).uploads@, slot),
            *final(self) == (Gpu { uploads: final(self).uploads, ..*old(self) }),
    {
        let mut left: Vec<Upload> = Vec::new();
        let ghost all = self.uploads@;
        for i in 0..self.uploads.len()
            invariant
                all == self.uploads@,
                left@ == without(all.take(i as int), slot),
        {
            let u: Upload = self.uploads[i];
            assert(all.take(i + 1).drop_last() =~= all.take(i as int));
            if u.slot != slot {
                left.push(u);
            }
        }
        assert(all.take(all.len() as int) =~= all);
        proof {
            lemma_without(all, slot);
        }
        self.uploads = left;
    }

    /// Empty a slot: the texture that is to go.
    pub fn clear(&mut self, slot: usize) -> (r: Option<Texture>)
        requires
            old(self).wf(),
            slot < SLOTS,
        ensures
            final(self).wf(),
            r == old(self).tex@[slot as int],
            final(self).tex@ == old(self).tex@.update(slot as int, None),
            final(self).uploads@ == without(old(self).uploads@, slot),
            final(self).staging == old(self).staging,
            final(self).small == old(self).small,
    {
        self.forget_uploads(slot);
        let r: Option<Texture> = self.tex[slot];
        self.tex.set(slot, None);
        r
    }

    /// Pixels of this size are to go to a slot, with a chain of smaller ones or not. A thumbnail goes
    /// without: it is only ever shown enlarged.
    pub fn place(&mut self, slot: usize, w: u32, h: u32, mipmapped: bool) -> (r: Placing)
        requires
            old(self).wf(),
            slot < SLOTS,
        ensures
            final(self).wf(),
            final(self).uploads@ == without(old(self).uploads@, slot),
            final(self).staging == old(self).staging,
            final(self).small == old(self).small,
            ({
                let old_tex = old(self).tex@[slot as int];
                let same = old_tex is Some && old_tex->0.w == w && old_tex->0.h == h
                    && old_tex->0.mips == mips_of(w, h, mipmapped);
                &&& same ==> r == Placing::Reuse && final(self).tex == old(self).tex
                &&& !same ==> r is Make && r->old == old_tex && r->mips == mips_of(w, h, mipmapped)
                    && final(self).tex@ == old(self).tex@.update(slot as int, None)
            }),
    {
        let mips: u32 = count_mips(w, h, mipmapped);
        self.forget_uploads(slot);
        let old_tex: Option<Texture> = self.tex[slot];
        let same: bool = match old_tex {
            Some(t) => t.w == w && t.h == h && t.mips == mips,
            None => false,
        };
        if same {
            Placing::Reuse
        } else {
            self.tex.set(slot, None);
            Placing::Make { old: old_tex, mips }
        }
    }

    /// A texture was made for a slot.
    pub fn made(&mut self, slot: usize, t: Texture)
        requires
            old(self).wf(),
            slot < SLOTS,
            t.mips >= 1,
        ensures
            final(self).wf(),
            final(self).tex@ == old(self).tex@.update(slot as int, Some(t)),
            *final(self) == (Gpu { tex: final(self).tex, ..*old(self) }),
    {
        self.tex.set(slot, Some(t));
    }
}

fn roomy_size(need: u64) -> (size: u64)
    requires
        need <= MAX_STAGED,
    ensures
        roomy(size, need as int),
        size <= 2 * MAX_STAGED,
        size % 16 == 0,
{
    let mut size: u64 = KEPT_STAGING;
    let ghost mut k: nat = 0;
    proof {
        vstd::arithmetic::power2::lemma_pow2(0);
        vstd::arithmetic::power::lemma_pow0(2);
    }
    while size < need
        invariant
            need <= MAX_STAGED,
            size == KEPT_STAGING * vstd::arithmetic::power2::pow2(k),
            size == KEPT_STAGING || size < 2 * need,
            size >= KEPT_STAGING,
            size <= 2 * MAX_STAGED,
            size % 16 == 0,
        decreases 2 * need - size,
    {
        proof {
            vstd::arithmetic::power2::lemma_pow2_unfold((k + 1) as nat);
            k = k + 1;
        }
        size = size * 2;
    }
    assert(size == KEPT_STAGING * vstd::arithmetic::power2::pow2(k));
    size
}

impl Gpu {
    /// The staging buffer is too small for pixels of this length, or not there: the size of the one to
    /// make, with what waits in the old one copied over.
    pub fn room(&self, len: u64) -> (r: Option<u64>)
        requires
            self.wf(),
            self.waiting() + len <= MAX_STAGED,
        ensures
            r is None == (self.staging is Some && self.staging->0.size >= self.waiting() + len),
            r is Some ==> roomy(r->0, self.waiting() + len) && r->0 <= 2 * MAX_STAGED && r->0 % 16
                == 0,
    {
        let (used, size): (u64, u64) = match self.staging {
            Some(s) => (s.used, s.size),
            None => (0, 0),
        };
        if self.staging.is_some() && size >= used + len {
            None
        } else {
            Some(roomy_size(used + len))
        }
    }

    /// Pixels were copied into the staging buffer, one of this size where it was made anew: where they
    /// start. They go to their slot with the next frame.
    pub fn stage(&mut self, slot: usize, len: u64, made: Option<u64>) -> (at: u64)
        requires
            old(self).wf(),
            slot < SLOTS,
            old(self).waiting() + len <= MAX_STAGED,
            forall|i: int| 0 <= i < old(self).uploads@.len() ==> (#[trigger] old(self).uploads@[i]).slot
                != slot,
            made is None ==> old(self).staging is Some && old(self).staging->0.size >= old(
                self,
            ).waiting() + len,
            made is Some ==> old(self).waiting() + len <= made->0 <= 2 * MAX_STAGED && made->0 % 16
                == 0,
        ensures
            final(self).wf(),
            at == old(self).waiting(),
            final(self).uploads@ == old(self).uploads@.push(Upload { slot, offset: at, len }),
            final(self).staging is Some,
            final(self).staging->0.used == aligned(at + len),
            final(self).staging->0.size == (match made {
                Some(size) => size,
                None => old(self).staging->0.size,
            }),
            final(self).tex == old(self).tex,
            final(self).small == old(self).small,
    {
        let at: u64 = match self.staging {
            Some(s) => s.used,
            None => 0,
        };
        let size: u64 = match made {
            Some(size) => size,
            None => match self.staging {
                Some(s) => s.size,
                None => 0,
            },
        };
        let used: u64 = (at + len + 15) / 16 * 16;
        self.staging = Some(Staging { size, used });
        self.uploads.push(Upload { slot, offset: at, len });
        at
    }

    /// The frame was submitted: the staging buffer is free again.
    pub fn submitted(&mut self)
        requires
            old(self).wf(),
            old(self).uploads@.len() == 0,
        ensures
            final(self).wf(),
            *final(self) == (Gpu {
                staging: match old(self).staging {
                    Some(s) => Some(Staging { used: 0, ..s }),
                    None => None,
                },
                ..*old(self)
            }),
    {
        match self.staging {
            Some(s) => {
                self.staging = Some(Staging { size: s.size, used: 0 });
            },
            None => {},
        }
    }

    /// Give a large staging buffer back: a hidden viewer should not keep it. A small one stays. Nothing
    /// waits in it any more.
    pub fn release_staging(&mut self) -> (freed: bool)
        requires
            old(self).wf(),
        ensures
            final(self).wf(),
            freed == (old(self).staging is Some && old(self).staging->0.size > KEPT_STAGING),
            freed <==> old(self).staging is Some && old(self).staging->0.size > 16 * 1024 * 1024,
            final(self).staging == (if freed {
                None
            } else {
                old(self).staging
            }),
            final(self).uploads@.len() == 0,
            final(self).tex == old(self).tex,
            final(self).small == old(self).small,
    {
        self.uploads = Vec::new();
        let freed: bool = match self.staging {
            Some(s) => s.size > KEPT_STAGING,
            None => false,
        };
        if freed {
            self.staging = None;
        }
        freed
    }

    /// Hidden and trimmed: the size of the staging buffer to make where there is none. Only a small one
    /// is made here.
    pub fn warm(&self) -> (r: Option<u64>)
        ensures
            r == (if self.staging is None {
                Some(WARM_STAGING)
            } else {
                None
            }),
            r matches Some(n) ==> n == 1024 * 1024,
    {
        if self.staging.is_none() {
            Some(WARM_STAGING)
        } else {
            None
        }
    }

    /// That buffer was made; how much of the one that is there is touched.
    pub fn warmed(&mut self, made: bool) -> (touch: Option<u64>)
        requires
            old(self).wf(),
        ensures
            final(self).wf(),
            final(self).staging == (if old(self).staging is None && made {
                Some(Staging { size: WARM_STAGING, used: 0 })
            } else {
                old(self).staging
            }),
            touch == (match final(self).staging {
                Some(s) => Some(if s.size < WARM_STAGING {
                    s.size
                } else {
                    WARM_STAGING
                }),
                None => None,
            }),
            *final(self) == (Gpu { staging: final(self).staging, ..*old(self) }),
    {
        if self.staging.is_none() && made {
            self.staging = Some(Staging { size: WARM_STAGING, used: 0 });
        }
        match self.staging {
            Some(s) => Some(
                if s.size < WARM_STAGING {
                    s.size
                } else {
                    WARM_STAGING
                },
            ),
            None => None,
        }
    }
}

/// The memory of a texture fits in a block of the pool.
pub open spec fn fits_block(size: u64, align: u64) -> bool {
    size <= SMALL_BLOCK && align <= SMALL_BLOCK
}

/// The first free block of a type.
pub open spec fn first_block(small: Seq<Block>, ty: u32, i: int) -> bool {
    &&& 0 <= i < small.len()
    &&& small[i].ty == ty
    &&& forall|j: int| 0 <= j < i ==> (#[trigger] small[j]).ty != ty
}

impl Gpu {
    /// Memory of a type for a texture, and whether it is a block of the pool (that there is, or is to
    /// be allocated).
    pub fn memory(&mut self, size: u64, align: u64, ty: u32) -> (r: (Memory, bool))
        requires
            old(self).wf(),
        ensures
            final(self).wf(),
            r.1 == fits_block(size, align),
            r.1 <==> size <= 1024 * 1024 && align <= 1024 * 1024,
            !r.1 ==> r.0 == Memory::Allocate(size),
            r.1 && r.0 is Allocate ==> r.0->Allocate_0 == SMALL_BLOCK && forall|j: int|
                0 <= j < old(self).small@.len() ==> (#[trigger] old(self).small@[j]).ty != ty,
            r.0 is Allocate ==> final(self).small == old(self).small,
            r.0 is Pooled ==> exists|i: int| #[trigger]
                first_block(old(self).small@, ty, i) && r.0->Pooled_0 == old(self).small@[i].mem
                    && final(self).small@ == old(self).small@.update(
                    i,
                    old(self).small@.last(),
                ).drop_last(),
            *final(self) == (Gpu { small: final(self).small, ..*old(self) }),
    {
        if size > SMALL_BLOCK || align > SMALL_BLOCK {
            return (Memory::Allocate(size), false);
        }
        let n: usize = self.small.len();
        for i in 0..n
            invariant
                *self == *old(self),
                self.wf(),
                n == self.small@.len(),
                size <= SMALL_BLOCK && align <= SMALL_BLOCK,
                forall|j: int| 0 <= j < i ==> (#[trigger] self.small@[j]).ty != ty,
        {
            if self.small[i].ty == ty {
                assert(first_block(self.small@, ty, i as int));
                let b: Block = self.small.swap_remove(i);
                assert(self.small@ =~= old(self).small@.update(
                    i as int,
                    old(self).small@.last(),
                ).drop_last());
                return (Memory::Pooled(b.mem), true);
            }
        }
        (Memory::Allocate(SMALL_BLOCK), true)
    }

    /// A texture goes: its block goes back to the pool while there is room there, else its memory is
    /// freed.
    pub fn retire(&mut self, t: Texture) -> (freed: bool)
        requires
            old(self).wf(),
        ensures
            final(self).wf(),
            freed == (t.pooled is None || old(self).small@.len() >= SMALL_KEPT),
            freed <==> t.pooled is None || old(self).small@.len() >= 8,
            final(self).small@ == (if freed {
                old(self).small@
            } else {
                old(self).small@.push(Block { mem: t.mem, ty: t.pooled->0 })
            }),
            *final(self) == (Gpu { small: final(self).small, ..*old(self) }),
    {
        match t.pooled {
            Some(ty) => if self.small.len() < SMALL_KEPT {
                self.small.push(Block { mem: t.mem, ty });
                false
            } else {
                true
            },
            None => true,
        }
    }

    /// Which of these slots are drawn: those with a texture.
    pub fn drawable(&self, slots: &Vec<usize>) -> (r: Vec<bool>)
        requires
            self.wf(),
            forall|i: int| 0 <= i < slots@.len() ==> #[trigger] slots@[i] < SLOTS,
        ensures
            r@ == Seq::new(slots@.len(), |i: int| self.tex@[slots@[i] as int] is Some),
    {
        let mut v: Vec<bool> = Vec::new();
        for i in 0..slots.len()
            invariant
                self.wf(),
                forall|i: int| 0 <= i < slots@.len() ==> #[trigger] slots@[i] < SLOTS,
                v@ == Seq::new(i as nat, |i: int| self.tex@[slots@[i] as int] is Some),
        {
            assert(slots@[i as int] < SLOTS);
            v.push(self.tex[slots[i]].is_some());
            assert(v@ =~= Seq::new((i + 1) as nat, |i: int| self.tex@[slots@[i] as int] is Some));
        }
        v
    }
}

/// What was staged for a slot stays apart from everything else that waits, and lies in the buffer.
pub proof fn law_uploads_apart(g: Gpu, i: int, j: int, at: int)
    requires
        g.wf(),
        0 <= i < g.uploads@.len(),
        0 <= j < g.uploads@.len(),
        i != j,
        g.uploads@[i].offset <= at < g.uploads@[i].end(),
    ensures
        !(g.uploads@[j].offset <= at < g.uploads@[j].end()),
        at < g.staging->0.size,
        g.uploads@[i].slot != g.uploads@[j].slot,
{
    if i < j {
        assert(g.uploads@[i].end() <= g.uploads@[j].offset);
    } else {
        assert(g.uploads@[j].end() <= g.uploads@[i].offset);
    }
}

/// How a level of a texture lies in memory: fit for nothing, for being written or read by copies, or for
/// being drawn from.
#[derive(Clone, Copy, PartialEq, Eq, Structural, Debug)]
pub enum Layout {
    Undefined,
    TransferDst,
    TransferSrc,
    ShaderRead,
}

/// A command of an upload.
#[allow(inconsistent_fields)]
#[derive(Clone, Copy, PartialEq, Eq, Structural, Debug)]
pub enum Cmd {
    /// These levels change their layout.
    Barrier { base: u32, count: u32, from: Layout, to: Layout },
    /// The staged pixels go to the first level.
    Copy { offset: u64, w: u32, h: u32 },
    /// A level is made from the one above it, scaled.
    Blit { level: u32, from_w: u32, from_h: u32, to_w: u32, to_h: u32 },
}

/// A side after this many halvings; it never gets below one pixel.
pub open spec fn side(n: u32, k: nat) -> u32
    decreases k,
{
    if k == 0 {
        n
    } else {
        let s = side(n, (k - 1) as nat);
        if s / 2 < 1 {
            1
        } else {
            s / 2
        }
    }
}

/// The commands that fill the first `k` levels below the topmost, each from the one above it.
pub open spec fn chain(w: u32, h: u32, k: nat) -> Seq<Cmd>
    decreases k,
{
    if k == 0 {
        seq![]
    } else {
        let up = (k - 1) as nat;
        chain(w, h, up).push(
            Cmd::Barrier {
                base: up as u32,
                count: 1,
                from: Layout::TransferDst,
                to: Layout::TransferSrc,
            },
        ).push(
            Cmd::Blit {
                level: k as u32,
                from_w: side(w, up),
                from_h: side(h, up),
                to_w: side(w, k),
                to_h: side(h, k),
            },
        )
    }
}

/// An upload: what was there is not needed, the pixels go to the first level, the smaller ones are made
/// one from another, and in the end every level can be drawn from.
pub open spec fn upload_cmds(t: Texture, offset: u64) -> Seq<Cmd> {
    let filled = seq![
        Cmd::Barrier {
            base: 0,
            count: t.mips,
            from: Layout::Undefined,
            to: Layout::TransferDst,
        },
        Cmd::Copy { offset, w: t.w, h: t.h },
    ] + chain(t.w, t.h, (t.mips - 1) as nat);
    let read = if t.mips > 1 {
        filled.push(
            Cmd::Barrier {
                base: 0,
                count: (t.mips - 1) as u32,
                from: Layout::TransferSrc,
                to: Layout::ShaderRead,
            },
        )
    } else {
        filled
    };
    read.push(
        Cmd::Barrier {
            base: (t.mips - 1) as u32,
            count: 1,
            from: Layout::TransferDst,
            to: Layout::ShaderRead,
        },
    )
}

fn halved(n: u32) -> (r: u32)
    ensures
        r == (if n / 2 < 1 {
            1
        } else {
            n / 2
        }),
{
    if n / 2 < 1 {
        1
    } else {
        n / 2
    }
}

/// The commands that bring staged pixels into a texture.
pub fn upload_commands(t: Texture, offset: u64) -> (r: Vec<Cmd>)
    requires
        t.mips >= 1,
    ensures
        r@ == upload_cmds(t, offset),
{
    let mut v: Vec<Cmd> = Vec::new();
    v.push(
        Cmd::Barrier { base: 0, count: t.mips, from: Layout::Undefined, to: Layout::TransferDst },
    );
    v.push(Cmd::Copy { offset, w: t.w, h: t.h });
    let ghost head = v@;
    assert(head =~= seq![
        Cmd::Barrier { base: 0, count: t.mips, from: Layout::Undefined, to: Layout::TransferDst },
        Cmd::Copy { offset, w: t.w, h: t.h },
    ]);
    assert(head + chain(t.w, t.h, 0) =~= head);
    let (mut w, mut h): (u32, u32) = (t.w, t.h);
    for level in 1..t.mips
        invariant
            v@ == head + chain(t.w, t.h, (level - 1) as nat),
            w == side(t.w, (level - 1) as nat),
            h == side(t.h, (level - 1) as nat),
    {
        let ghost before = chain(t.w, t.h, (level - 1) as nat);
        v.push(
            Cmd::Barrier {
                base: level - 1,
                count: 1,
                from: Layout::TransferDst,
                to: Layout::TransferSrc,
            },
        );
        let (nw, nh): (u32, u32) = (halved(w), halved(h));
        v.push(Cmd::Blit { level, from_w: w, from_h: h, to_w: nw, to_h: nh });
        assert(v@ =~= head + chain(t.w, t.h, level as nat));
        w = nw;
        h = nh;
    }
    if t.mips > 1 {
        v.push(
            Cmd::Barrier {
                base: 0,
                count: t.mips - 1,
                from: Layout::TransferSrc,
                to: Layout::ShaderRead,
            },
        );
    }
    v.push(
        Cmd::Barrier {
            base: t.mips - 1,
            count: 1,
            from: Layout::TransferDst,
            to: Layout::ShaderRead,
        },
    );
    v
}

/// What a command does to the layouts of the levels; none where it may not be given.
pub open spec fn done(l: Seq<Layout>, c: Cmd) -> Option<Seq<Layout>> {
    match c {
        Cmd::Barrier { base, count, from, to } => if count > 0 && base + count <= l.len() && (from
            == Layout::Undefined || forall|i: int| base <= i < base + count ==> l[i] == from) {
            Some(
                Seq::new(
                    l.len(),
                    |i: int|
                        if base <= i < base + count {
                            to
                        } else {
                            l[i]
                        },
                ),
            )
        } else {
            None
        },
        Cmd::Copy { .. } => if l.len() > 0 && l[0] == Layout::TransferDst {
            Some(l)
        } else {
            None
        },
        Cmd::Blit { level, .. } => if 1 <= level < l.len() && l[level - 1] == Layout::TransferSrc
            && l[level as int] == Layout::TransferDst {
            Some(l)
        } else {
            None
        },
    }
}

/// What commands in a row do.
pub open spec fn all_done(l: Seq<Layout>, c: Seq<Cmd>) -> Option<Seq<Layout>>
    decreases c.len(),
{
    if c.len() == 0 {
        Some(l)
    } else {
        match all_done(l, c.drop_last()) {
            Some(m) => done(m, c.last()),
            None => None,
        }
    }
}

/// The layouts while a chain is made: what was scaled from already, and the rest.
spec fn halfway(n: nat, k: int) -> Seq<Layout> {
    Seq::new(
        n,
        |i: int|
            if i < k {
                Layout::TransferSrc
            } else {
                Layout::TransferDst
            },
    )
}

proof fn lemma_push(l: Seq<Layout>, c: Seq<Cmd>, x: Cmd)
    requires
        all_done(l, c) is Some,
    ensures
        all_done(l, c.push(x)) == done(all_done(l, c)->0, x),
{
    assert(c.push(x).drop_last() =~= c);
}

proof fn lemma_chain(l: Seq<Layout>, head: Seq<Cmd>, w: u32, h: u32, n: u32, k: nat)
    requires
        k < n,
        all_done(l, head) == Some(halfway(n as nat, 0)),
    ensures
        all_done(l, head + chain(w, h, k)) == Some(halfway(n as nat, k as int)),
    decreases k,
{
    if k == 0 {
        assert(head + chain(w, h, 0) =~= head);
    } else {
        let up = (k - 1) as nat;
        lemma_chain(l, head, w, h, n, up);
        let before = head + chain(w, h, up);
        let b = Cmd::Barrier {
            base: up as u32,
            count: 1,
            from: Layout::TransferDst,
            to: Layout::TransferSrc,
        };
        let s = Cmd::Blit {
            level: k as u32,
            from_w: side(w, up),
            from_h: side(h, up),
            to_w: side(w, k),
            to_h: side(h, k),
        };
        lemma_push(l, before, b);
        assert(done(halfway(n as nat, up as int), b)->0 =~= halfway(n as nat, k as int));
        lemma_push(l, before.push(b), s);
        assert(head + chain(w, h, k) =~= before.push(b).push(s));
    }
}

/// Whatever the levels of a texture were before, every command of an upload may be given when its turn
/// comes, and in the end every level can be drawn from.
pub proof fn law_every_level_readable(t: Texture, offset: u64, l: Seq<Layout>)
    requires
        t.mips >= 1,
        l.len() == t.mips,
    ensures
        all_done(l, upload_cmds(t, offset)) == Some(
            Seq::new(t.mips as nat, |i: int| Layout::ShaderRead),
        ),
{
    let n = t.mips as nat;
    let none = Seq::<Cmd>::empty();
    let first = Cmd::Barrier {
        base: 0,
        count: t.mips,
        from: Layout::Undefined,
        to: Layout::TransferDst,
    };
    let copy = Cmd::Copy { offset, w: t.w, h: t.h };
    lemma_push(l, none, first);
    assert(done(l, first)->0 =~= halfway(n, 0));
    lemma_push(l, none.push(first), copy);
    let head = seq![first, copy];
    assert(none.push(first).push(copy) =~= head);
    lemma_chain(l, head, t.w, t.h, t.mips, (n - 1) as nat);
    let filled = head + chain(t.w, t.h, (n - 1) as nat);
    let last = Cmd::Barrier {
        base: (t.mips - 1) as u32,
        count: 1,
        from: Layout::TransferDst,
        to: Layout::ShaderRead,
    };
    if t.mips > 1 {
        let most = Cmd::Barrier {
            base: 0,
            count: (t.mips - 1) as u32,
            from: Layout::TransferSrc,
            to: Layout::ShaderRead,
        };
        lemma_push(l, filled, most);
        lemma_push(l, filled.push(most), last);
        assert(all_done(l, filled.push(most).push(last))->0 =~= Seq::new(
            n,
            |i: int| Layout::ShaderRead,
        ));
    } else {
        lemma_push(l, filled, last);
        assert(all_done(l, filled.push(last))->0 =~= Seq::new(n, |i: int| Layout::ShaderRead));
    }
}

proof fn lemma_side(m: u32, k: nat)
    requires
        m >= 1,
    ensures
        side(m, k) >= 1,
        k >= levels(m as nat) - 1 ==> side(m, k) == 1,
        m >= 2 && k >= 1 ==> side(m, k) == side(m / 2, (k - 1) as nat),
    decreases m, k,
{
    if m == 1 {
        assert(levels(1) == 1) by {
            reveal_with_fuel(levels, 2);
        }
        if k > 0 {
            lemma_side(m, (k - 1) as nat);
        }
    } else {
        lemma_halves(m, k);
        if k >= 1 {
            lemma_side(m / 2, (k - 1) as nat);
        }
        assert(levels((m / 2) as nat) >= 1) by {
            reveal_with_fuel(levels, 2);
        }
    }
}

proof fn lemma_halves(m: u32, k: nat)
    requires
        m >= 2,
    ensures
        k >= 1 ==> side(m, k) == side(m / 2, (k - 1) as nat),
    decreases k,
{
    if k == 1 {
        assert(side(m, 0) == m);
        assert(side(m / 2, 0) == m / 2);
    } else if k > 1 {
        lemma_halves(m, (k - 1) as nat);
    }
}

proof fn lemma_levels_grow(m: nat, n: nat)
    requires
        m <= n,
    ensures
        levels(m) <= levels(n),
    decreases n,
{
    if m > 0 {
        lemma_levels_grow(m / 2, n / 2);
    }
}

/// A whole chain ends in a single pixel.
pub proof fn law_chain_ends_in_a_pixel(w: u32, h: u32)
    requires
        w >= 1,
        h >= 1,
    ensures
        mips_of(w, h, true) >= 1,
        side(w, (mips_of(w, h, true) - 1) as nat) == 1,
        side(h, (mips_of(w, h, true) - 1) as nat) == 1,
{
    let n = larger(w, h) as nat;
    lemma_levels_grow(w as nat, n);
    lemma_levels_grow(h as nat, n);
    assert(levels(n) >= 1);
    lemma_side(w, (levels(n) - 1) as nat);
    lemma_side(h, (levels(n) - 1) as nat);
}

/// One upload of a frame: what is to be recorded for a slot.
pub struct Job {
    pub slot: usize,
    pub cmds: Vec<Cmd>,
}

/// The jobs of the uploads whose slot has a texture still.
pub open spec fn jobs(tex: Seq<Option<Texture>>, u: Seq<Upload>) -> Seq<(usize, Seq<Cmd>)>
    decreases u.len(),
{
    if u.len() == 0 {
        seq![]
    } else {
        let before = jobs(tex, u.drop_last());
        match tex[u.last().slot as int] {
            Some(t) => before.push((u.last().slot, upload_cmds(t, u.last().offset))),
            None => before,
        }
    }
}

pub open spec fn job_list(v: Seq<Job>) -> Seq<(usize, Seq<Cmd>)> {
    Seq::new(v.len(), |i: int| (v[i].slot, v[i].cmds@))
}

impl Gpu {
    /// What is to be recorded for the pixels that wait; after that none do.
    pub fn record_uploads(&mut self) -> (r: Vec<Job>)
        requires
            old(self).wf(),
        ensures
            final(self).wf(),
            job_list(r@) == jobs(old(self).tex@, old(self).uploads@),
            final(self).uploads@.len() == 0,
            *final(self) == (Gpu { uploads: final(self).uploads, ..*old(self) }),
    {
        let mut v: Vec<Job> = Vec::new();
        assert(job_list(v@) =~= seq![]);
        let n: usize = self.uploads.len();
        for i in 0..n
            invariant
                *self == *old(self),
                self.wf(),
                n == self.uploads@.len(),
                job_list(v@) == jobs(self.tex@, self.uploads@.take(i as int)),
        {
            let u: Upload = self.uploads[i];
            let ghost before = v@;
            assert(self.uploads@.take(i + 1).drop_last() =~= self.uploads@.take(i as int));
            match self.tex[u.slot] {
                Some(t) => {
                    let cmds = upload_commands(t, u.offset);
                    v.push(Job { slot: u.slot, cmds });
                    assert(job_list(v@) =~= job_list(before).push(
                        (u.slot, upload_cmds(t, u.offset)),
                    ));
                },
                None => {},
            }
        }
        assert(self.uploads@.take(n as int) =~= self.uploads@);
        self.uploads = Vec::new();
        v
    }
}

/// A small block that went back to the pool is there for the next texture that wants memory of its type.
pub proof fn law_small_block_returns(small: Seq<Block>, b: Block)
    ensures
        exists|i: int| #[trigger] first_block(small.push(b), b.ty, i),
{
    let pool = small.push(b);
    assert(pool[small.len() as int].ty == b.ty);
    lemma_first_block(pool, b.ty, small.len() as int);
}

proof fn lemma_first_block(pool: Seq<Block>, ty: u32, k: int)
    requires
        0 <= k < pool.len(),
        pool[k].ty == ty,
    ensures
        exists|i: int| #[trigger] first_block(pool, ty, i),
    decreases k,
{
    if forall|j: int| 0 <= j < k ==> (#[trigger] pool[j]).ty != ty {
        assert(first_block(pool, ty, k));
    } else {
        let j = choose|j: int| 0 <= j < k && (#[trigger] pool[j]).ty == ty;
        lemma_first_block(pool, ty, j);
    }
}

/// How many levels a chain has: with one less, a pixel of the larger side is left undivided; the side is
/// below two to the number of levels.
pub proof fn law_levels(n: nat)
    requires
        n > 0,
    ensures
        levels(n) >= 1,
        vstd::arithmetic::power2::pow2((levels(n) - 1) as nat) <= n < vstd::arithmetic::power2::pow2(
            levels(n),
        ),
    decreases n,
{
    use_powers();
    if n == 1 {
        reveal_with_fuel(levels, 2);
    } else {
        law_levels(n / 2);
        let l = levels(n / 2);
        vstd::arithmetic::power2::lemma_pow2_unfold(l);
        vstd::arithmetic::power2::lemma_pow2_unfold((l + 1) as nat);
    }
}

proof fn use_powers()
    ensures
        vstd::arithmetic::power2::pow2(0) == 1,
        vstd::arithmetic::power2::pow2(1) == 2,
{
    vstd::arithmetic::power2::lemma2_to64();
}

/// A side of a level is the photo's, divided by two to the level and rounded down, but never less than a
/// pixel.
pub proof fn law_side(n: u32, k: nat)
    requires
        n > 0,
    ensures
        ({
            let p = vstd::arithmetic::power2::pow2(k) as int;
            let s = side(n, k) as int;
            &&& s >= 1
            &&& s * p <= n || s == 1
            &&& n < (s + 1) * p
        }),
    decreases k,
{
    use_powers();
    if k > 0 {
        law_side(n, (k - 1) as nat);
        let q = vstd::arithmetic::power2::pow2((k - 1) as nat) as int;
        vstd::arithmetic::power2::lemma_pow2_unfold(k);
        let s = side(n, (k - 1) as nat) as int;
        let t = side(n, k) as int;
        assert(2 * (s / 2) <= s < 2 * (s / 2) + 2);
        assert(n < (t + 1) * (2 * q)) by (nonlinear_arith)
            requires
                n < (s + 1) * q,
                s + 1 <= 2 * (t + 1),
                q >= 0,
        ;
        if t > 1 {
            assert(t * (2 * q) <= n) by (nonlinear_arith)
                requires
                    s * q <= n,
                    2 * t <= s,
                    q >= 0,
            ;
        }
    }
}

/// Each level of a chain is made from the one above it, once that can be read: from its whole size to the
/// level's own.
pub proof fn law_chain(w: u32, h: u32, k: nat, i: int)
    requires
        1 <= i <= k <= u32::MAX,
    ensures
        chain(w, h, k).len() == 2 * k,
        chain(w, h, k)[2 * (i - 1)] == (Cmd::Barrier {
            base: (i - 1) as u32,
            count: 1,
            from: Layout::TransferDst,
            to: Layout::TransferSrc,
        }),
        chain(w, h, k)[2 * (i - 1) + 1] == (Cmd::Blit {
            level: i as u32,
            from_w: side(w, (i - 1) as nat),
            from_h: side(h, (i - 1) as nat),
            to_w: side(w, i as nat),
            to_h: side(h, i as nat),
        }),
    decreases k,
{
    if k == 1 {
        assert(chain(w, h, 0).len() == 0);
    } else if i < k {
        law_chain(w, h, (k - 1) as nat, i);
    } else {
        law_chain(w, h, (k - 1) as nat, 1);
    }
}

/// The pixels go to the first level of the texture, whole, from where they were staged, after the levels
/// were made ready and before any is made from it.
pub proof fn law_pixels_are_copied(t: Texture, offset: u64)
    requires
        t.mips >= 1,
    ensures
        upload_cmds(t, offset).len() >= 3,
        upload_cmds(t, offset)[0] == (Cmd::Barrier {
            base: 0,
            count: t.mips,
            from: Layout::Undefined,
            to: Layout::TransferDst,
        }),
        upload_cmds(t, offset)[1] == (Cmd::Copy { offset, w: t.w, h: t.h }),
{
}

/// What is staged starts at a multiple of sixteen, with as little lost as that takes.
pub proof fn law_aligned(n: int)
    ensures
        n <= aligned(n) < n + 16,
        aligned(n) % 16 == 0,
{
}

/// The uploads of a slot go, and no other does.
pub proof fn law_without(s: Seq<Upload>, slot: usize, u: Upload)
    ensures
        without(s, slot).contains(u) <==> s.contains(u) && u.slot != slot,
    decreases s.len(),
{
    if s.len() > 0 {
        let t = s.drop_last();
        law_without(t, slot, u);
        let r = without(t, slot);
        let all = without(s, slot);
        assert(s[s.len() - 1] == s.last());
        if t.contains(u) {
            let k = choose|k: int| 0 <= k < t.len() && t[k] == u;
            assert(s[k] == u);
        }
        if s.contains(u) && u != s.last() {
            let k = choose|k: int| 0 <= k < s.len() && s[k] == u;
            assert(t[k] == u);
        }
        if s.last().slot != slot {
            assert(all[r.len() as int] == s.last());
            if r.contains(u) {
                let k = choose|k: int| 0 <= k < r.len() && r[k] == u;
                assert(all[k] == u);
            }
            if all.contains(u) && u != s.last() {
                let k = choose|k: int| 0 <= k < all.len() && all[k] == u;
                assert(r[k] == u);
            }
        }
    }
}

/// Everything that waits for a texture that is still there is recorded, with what it staged, and nothing
/// for one that is gone.
pub proof fn law_waiting_is_recorded(tex: Seq<Option<Texture>>, u: Seq<Upload>, i: int)
    requires
        0 <= i < u.len(),
    ensures
        tex[u[i].slot as int] matches Some(t) ==> jobs(tex, u).contains(
            (u[i].slot, upload_cmds(t, u[i].offset)),
        ),
        forall|k: int|
            0 <= k < jobs(tex, u).len() ==> tex[(#[trigger] jobs(tex, u)[k]).0 as int] is Some,
        jobs(tex, u).len() <= u.len(),
    decreases u.len(),
{
    let all = jobs(tex, u);
    let before = jobs(tex, u.drop_last());
    if u.len() > 1 {
        law_waiting_is_recorded(tex, u.drop_last(), if i < u.len() - 1 {
            i
        } else {
            0
        });
    } else {
        assert(before.len() == 0);
    }
    match tex[u[i].slot as int] {
        Some(t) => {
            let job = (u[i].slot, upload_cmds(t, u[i].offset));
            if i < u.len() - 1 {
                assert(u.drop_last()[i] == u[i]);
                let k = choose|k: int| 0 <= k < before.len() && before[k] == job;
                assert(all[k] == job);
            } else {
                assert(all[before.len() as int] == job);
            }
        },
        None => {},
    }
}

/// A staging buffer is the least that does, or the least one that is made.
pub proof fn law_roomy(size: u64, need: int)
    requires
        roomy(size, need),
    ensures
        size >= need,
        size == 16 * 1024 * 1024 || size < 2 * need,
{
}

/// Without a chain a texture has one level; with one, as many as its larger side has halvings.
pub proof fn law_mips(w: u32, h: u32)
    requires
        w > 0 || h > 0,
    ensures
        mips_of(w, h, false) == 1,
        ({
            let m = mips_of(w, h, true);
            let n = if w > h {
                w as nat
            } else {
                h as nat
            };
            &&& m >= 1
            &&& vstd::arithmetic::power2::pow2((m - 1) as nat) <= n < vstd::arithmetic::power2::pow2(m)
        }),
{
    law_levels(larger(w, h) as nat);
}

/// The block taken is of the type asked for, and the first that is.
pub proof fn law_first_block(small: Seq<Block>, ty: u32, i: int, j: int)
    requires
        first_block(small, ty, i),
        0 <= j < i,
    ensures
        i < small.len() && small[i].ty == ty,
        small[j].ty != ty,
{
}

} // verus!
