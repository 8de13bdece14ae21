//! The photos on the GPU: the one shown, and its neighbours, put there ahead of the flip.

use crate::loader::File;
use crate::wic::{rank_of, Img};
use vstd::prelude::*;

verus! {

/// Photos kept on the GPU at once: the current one and its neighbours, uploaded ahead so a flip is
/// a draw and nothing else.
pub const IMAGE_SLOTS: usize = 4;

/// What a GPU slot holds: facts about the pixels, not the pixels. Holding those alive kept a full
/// decode in memory after the cache had let it go.
#[derive(Clone, Copy, PartialEq, Eq, Structural, Debug)]
pub struct Tex {
    pub path: u64,
    pub id: u64,
    /// Thumbnail 0, preview 1, full 2.
    pub rank: u8,
    /// Texture width, for texels per screen pixel.
    pub w: u32,
    pub full_w: u32,
    pub full_h: u32,
    pub orient: u8,
}

/// The facts about these pixels of a file.
pub open spec fn facts(path: u64, img: Img) -> Tex {
    Tex {
        path,
        id: img.id,
        rank: rank_of(img.full, img.thumb),
        w: img.w,
        full_w: img.full_w,
        full_h: img.full_h,
        orient: img.orient,
    }
}

impl Tex {
    pub fn of(path: u64, img: &Img) -> (t: Tex)
        ensures
            t == facts(path, *img),
    {
        Tex {
            path,
            id: img.id,
            rank: img.rank(),
            w: img.w,
            full_w: img.full_w,
            full_h: img.full_h,
            orient: img.orient,
        }
    }

    /// Good enough for `other`: these very pixels, or better ones of the same file.
    pub open spec fn good_for(self, other: Tex) -> bool {
        self.path == other.path && (self.id == other.id || self.rank > other.rank)
    }

    /// Good enough for `other`: these very pixels, or the full image where `other` is a preview.
    pub fn serves(&self, other: &Tex) -> (r: bool)
        ensures
            r == self.good_for(*other),
    {
        self.path == other.path && (self.id == other.id || self.rank > other.rank)
    }
}

/// Where pixels go.
#[derive(Clone, Copy, PartialEq, Eq, Structural, Debug)]
pub enum Place {
    /// This slot holds what serves.
    Ready(usize),
    /// They are to be uploaded to this slot.
    Upload(usize),
}

/// Where a file is in the folder, the first time.
pub open spec fn position(files: Seq<File>, path: u64) -> Option<nat>
    decreases files.len(),
{
    if files.len() == 0 {
        None
    } else if files[0].path == path {
        Some(0)
    } else {
        match position(files.skip(1), path) {
            Some(n) => Some(n + 1),
            None => None,
        }
    }
}

pub fn position_of(files: &Vec<File>, path: u64) -> (r: Option<usize>)
    ensures
        r matches Some(i) ==> position(files@, path) == Some(i as nat) && i < files@.len(),
        r is None ==> position(files@, path) is None,
{
    let n: usize = files.len();
    assert(files@.skip(0) =~= files@);
    for i in 0..n
        invariant
            n == files@.len(),
            position(files@, path) == (match position(files@.skip(i as int), path) {
                Some(k) => Some(k + i as nat),
                None => None,
            }),
    {
        assert(files@.skip(i as int)[0] == files@[i as int]);
        assert(files@.skip(i as int).skip(1) =~= files@.skip(i + 1));
        if files[i].path == path {
            return Some(i);
        }
    }
    None
}

/// How far a photo is from the current one, round the folder either way; as far as can be where it
/// is not in the folder, or the slot is empty.
pub open spec fn distance(slot: Option<Tex>, files: Seq<File>, cur: int) -> int {
    match slot {
        Some(t) => match position(files, t.path) {
            Some(a) => {
                let n = files.len() as int;
                let d = (a - cur) % n;
                if d < n - d {
                    d
                } else {
                    n - d
                }
            },
            None => u64::MAX as int,
        },
        None => u64::MAX as int,
    }
}

pub struct Textures {
    pub shown: Option<Tex>,
    /// Which slot holds the shown photo.
    pub shown_slot: usize,
    pub slots: Vec<Option<Tex>>,
}

/// A slot with pixels of this file.
pub open spec fn of_file(slot: Option<Tex>, path: u64) -> bool {
    slot is Some && slot->0.path == path
}

/// The first of the slots that meets `p`.
pub open spec fn first(slots: Seq<Option<Tex>>, p: spec_fn(Option<Tex>) -> bool, i: int) -> bool {
    &&& 0 <= i < slots.len()
    &&& p(slots[i])
    &&& forall|j: int| 0 <= j < i ==> !p(#[trigger] slots[j])
}

impl Textures {
    /// No file is on the GPU twice, and the photo shown is in the slot it is said to be in.
    pub open spec fn wf(self) -> bool {
        &&& self.slots@.len() == IMAGE_SLOTS
        &&& self.shown_slot < IMAGE_SLOTS
        &&& forall|i: int, j: int|
            0 <= i < j < IMAGE_SLOTS ==> !(#[trigger] self.slots@[i] is Some
                && #[trigger] self.slots@[j] is Some && self.slots@[i]->0.path
                == self.slots@[j]->0.path)
        &&& self.shown is Some ==> of_file(
            self.slots@[self.shown_slot as int],
            self.shown->0.path,
        )
    }

    /// The slot may be given up: it is not the shown photo's.
    pub open spec fn spare(self, i: int) -> bool {
        0 <= i < IMAGE_SLOTS && !(self.shown is Some && i == self.shown_slot)
    }

    /// The slot whose photo is farthest from the current one among those to spare; of several the
    /// last.
    pub open spec fn farthest(self, files: Seq<File>, cur: int, i: int) -> bool {
        &&& self.spare(i)
        &&& forall|j: int|
            self.spare(j) && j != i ==> {
                let a = distance(#[trigger] self.slots@[j], files, cur);
                let b = distance(self.slots@[i], files, cur);
                a < b || (a == b && j < i)
            }
    }

    /// The slot to upload to: in order, the same file's older pixels (a preview making way for the
    /// full image), a free one, the photo farthest from the current.
    pub open spec fn given_up(self, path: u64, files: Seq<File>, cur: int, i: int) -> bool {
        let same = |s: Option<Tex>| of_file(s, path);
        let free = |s: Option<Tex>| s is None;
        if exists|j: int| 0 <= j < IMAGE_SLOTS && of_file(#[trigger] self.slots@[j], path) {
            first(self.slots@, same, i)
        } else if exists|j: int| 0 <= j < IMAGE_SLOTS && #[trigger] self.slots@[j] is None {
            first(self.slots@, free, i)
        } else {
            self.farthest(files, cur, i)
        }
    }

    pub fn new() -> (r: Textures)
        ensures
            r.wf(),
            r.shown is None,
            r.shown_slot == 0,
            forall|i: int| 0 <= i < IMAGE_SLOTS ==> #[trigger] r.slots@[i] is None,
    {
        let mut v: Vec<Option<Tex>> = Vec::new();
        v.push(None);
        v.push(None);
        v.push(None);
        v.push(None);
        Textures { shown: None, shown_slot: 0, slots: v }
    }

    fn distance_of(&self, i: usize, files: &Vec<File>, cur: usize) -> (r: u64)
        requires
            i < self.slots@.len(),
            cur < files@.len() || files@.len() == 0,
        ensures
            r == distance(self.slots@[i as int], files@, cur as int),
    {
        match self.slots[i] {
            Some(t) => match position_of(files, t.path) {
                Some(a) => {
                    let n: u64 = files.len() as u64;
                    let d: u64 = if a >= cur {
                        (a - cur) as u64
                    } else {
                        n - (cur - a) as u64
                    };
                    proof {
                        if a >= cur {
                            vstd::arithmetic::div_mod::lemma_small_mod(
                                (a - cur) as nat,
                                n as nat,
                            );
                        } else {
                            vstd::arithmetic::div_mod::lemma_small_mod(d as nat, n as nat);
                            vstd::arithmetic::div_mod::lemma_mod_add_multiples_vanish(
                                a - cur,
                                n as int,
                            );
                        }
                    }
                    if d < n - d {
                        d
                    } else {
                        n - d
                    }
                },
                None => u64::MAX,
            },
            None => u64::MAX,
        }
    }

    fn find_farthest(&self, files: &Vec<File>, cur: usize) -> (i: usize)
        requires
            self.wf(),
            cur < files@.len() || files@.len() == 0,
        ensures
            self.farthest(files@, cur as int, i as int),
    {
        let barred: usize = if self.shown.is_some() {
            self.shown_slot
        } else {
            IMAGE_SLOTS
        };
        let mut best: usize = if barred == 0 {
            1
        } else {
            0
        };
        let mut far: u64 = self.distance_of(best, files, cur);
        for j in 0..IMAGE_SLOTS
            invariant
                self.wf(),
                cur < files@.len() || files@.len() == 0,
                barred == (if self.shown is Some {
                    self.shown_slot as int
                } else {
                    IMAGE_SLOTS as int
                }),
                self.spare(best as int),
                best == (if barred == 0 {
                    1int
                } else {
                    0
                }) || best < j,
                far == distance(self.slots@[best as int], files@, cur as int),
                forall|k: int|
                    self.spare(k) && k < j && k != best ==> {
                        let a = distance(#[trigger] self.slots@[k], files@, cur as int);
                        a < far || (a == far && k < best)
                    },
        {
            if j != barred {
                let d: u64 = self.distance_of(j, files, cur);
                if d >= far {
                    best = j;
                    far = d;
                }
            }
        }
        best
    }

    /// The slot holding pixels as good as `t`, or the one to upload them to. The shown photo's slot
    /// is given up only for the same file, and no file comes to be in two slots.
    pub fn on_gpu(&self, t: &Tex, files: &Vec<File>, cur: usize) -> (r: Place)
        requires
            self.wf(),
            cur < files@.len() || files@.len() == 0,
        ensures
            r matches Place::Ready(i) ==> first(
                self.slots@,
                |s: Option<Tex>| s is Some && s->0.good_for(*t),
                i as int,
            ),
            r matches Place::Upload(i) ==> {
                &&& forall|j: int|
                    0 <= j < IMAGE_SLOTS ==> !(#[trigger] self.slots@[j] is Some
                        && self.slots@[j]->0.good_for(*t))
                &&& self.given_up(t.path, files@, cur as int, i as int)
                &&& i < IMAGE_SLOTS
                &&& self.shown is Some && i == self.shown_slot ==> self.shown->0.path == t.path
                &&& forall|j: int|
                    0 <= j < IMAGE_SLOTS && j != i ==> !of_file(#[trigger] self.slots@[j], t.path)
            },
    {
        for i in 0..IMAGE_SLOTS
            invariant
                self.wf(),
                forall|j: int|
                    0 <= j < i ==> !(#[trigger] self.slots@[j] is Some
                        && self.slots@[j]->0.good_for(*t)),
        {
            match self.slots[i] {
                Some(s) => if s.serves(t) {
                    return Place::Ready(i);
                },
                None => {},
            }
        }
        for i in 0..IMAGE_SLOTS
            invariant
                self.wf(),
                forall|j: int|
                    0 <= j < IMAGE_SLOTS ==> !(#[trigger] self.slots@[j] is Some
                        && self.slots@[j]->0.good_for(*t)),
                forall|j: int| 0 <= j < i ==> !of_file(#[trigger] self.slots@[j], t.path),
        {
            match self.slots[i] {
                Some(s) => if s.path == t.path {
                    assert(of_file(self.slots@[i as int], t.path));
                    assert forall|j: int| 0 <= j < IMAGE_SLOTS && j != i implies !of_file(
                        #[trigger] self.slots@[j],
                        t.path,
                    ) by {
                        if j > i {
                            assert(self.slots@[i as int] is Some);
                        }
                    }
                    return Place::Upload(i);
                },
                None => {},
            }
        }
        for i in 0..IMAGE_SLOTS
            invariant
                self.wf(),
                forall|j: int|
                    0 <= j < IMAGE_SLOTS ==> !(#[trigger] self.slots@[j] is Some
                        && self.slots@[j]->0.good_for(*t)),
                forall|j: int|
                    0 <= j < IMAGE_SLOTS ==> !of_file(#[trigger] self.slots@[j], t.path),
                forall|j: int| 0 <= j < i ==> #[trigger] self.slots@[j] is Some,
        {
            if self.slots[i].is_none() {
                assert(self.slots@[i as int] is None);
                return Place::Upload(i);
            }
        }
        Place::Upload(self.find_farthest(files, cur))
    }

    /// Pixels were uploaded.
    pub fn put(&mut self, i: usize, t: Tex)
        requires
            old(self).wf(),
            i < IMAGE_SLOTS,
            old(self).shown is Some && i == old(self).shown_slot ==> old(self).shown->0.path
                == t.path,
            forall|j: int|
                0 <= j < IMAGE_SLOTS && j != i ==> !of_file(
                    #[trigger] old(self).slots@[j],
                    t.path,
                ),
        ensures
            final(self).wf(),
            final(self).slots@ == old(self).slots@.update(i as int, Some(t)),
            final(self).shown == old(self).shown,
            final(self).shown_slot == old(self).shown_slot,
    {
        self.slots.set(i, Some(t));
        assert forall|a: int, b: int| 0 <= a < b < IMAGE_SLOTS implies !(
        #[trigger] self.slots@[a] is Some && #[trigger] self.slots@[b] is Some
            && self.slots@[a]->0.path == self.slots@[b]->0.path) by {
            let was = old(self).slots@;
            if a == i {
                assert(!of_file(was[b], t.path));
            } else if b == i {
                assert(!of_file(was[a], t.path));
            } else {
                assert(was[a] == self.slots@[a] && was[b] == self.slots@[b]);
            }
        }
    }

    /// The photo of this slot is the one shown now; what was shown before.
    pub fn show(&mut self, i: usize)
        requires
            old(self).wf(),
            i < IMAGE_SLOTS,
            old(self).slots@[i as int] is Some,
        ensures
            final(self).wf(),
            final(self).slots@ == old(self).slots@,
            final(self).shown == old(self).slots@[i as int],
            final(self).shown_slot == i,
    {
        self.shown_slot = i;
        self.shown = self.slots[i];
    }

    /// Nothing is shown; the slots keep what they hold.
    pub fn show_nothing(&mut self)
        requires
            old(self).wf(),
        ensures
            final(self).wf(),
            final(self).slots@ == old(self).slots@,
            final(self).shown is None,
            final(self).shown_slot == old(self).shown_slot,
    {
        self.shown = None;
    }

    /// A file is gone: from the screen, and from its slot, which is given back to be cleared.
    pub fn forget(&mut self, path: u64) -> (r: Option<usize>)
        requires
            old(self).wf(),
        ensures
            final(self).wf(),
            final(self).shown_slot == old(self).shown_slot,
            final(self).shown == (if of_file(old(self).shown, path) {
                None
            } else {
                old(self).shown
            }),
            forall|j: int|
                0 <= j < IMAGE_SLOTS ==> #[trigger] final(self).slots@[j] == (if of_file(
                    old(self).slots@[j],
                    path,
                ) {
                    None
                } else {
                    old(self).slots@[j]
                }),
            r matches Some(i) ==> i < IMAGE_SLOTS && of_file(old(self).slots@[i as int], path),
            r is None ==> forall|j: int|
                0 <= j < IMAGE_SLOTS ==> !of_file(#[trigger] old(self).slots@[j], path),
    {
        match self.shown {
            Some(t) => if t.path == path {
                self.shown = None;
            },
            None => {},
        }
        let ghost was = old(self).slots@;
        for i in 0..IMAGE_SLOTS
            invariant
                old(self).wf(),
                was == old(self).slots@,
                self.slots@ == was,
                self.shown_slot == old(self).shown_slot,
                self.shown == (if of_file(old(self).shown, path) {
                    None
                } else {
                    old(self).shown
                }),
                forall|j: int| 0 <= j < i ==> !of_file(#[trigger] was[j], path),
        {
            let held: bool = match self.slots[i] {
                Some(t) => t.path == path,
                None => false,
            };
            if held {
                self.slots.set(i, None);
                assert(was[i as int] is Some);
                assert forall|a: int, b: int| 0 <= a < b < IMAGE_SLOTS implies !(
                #[trigger] self.slots@[a] is Some && #[trigger] self.slots@[b] is Some
                    && self.slots@[a]->0.path == self.slots@[b]->0.path) by {
                    assert(was[a] is Some ==> self.slots@[a] == was[a] || a == i);
                    assert(was[b] is Some ==> self.slots@[b] == was[b] || b == i);
                }
                return Some(i);
            }
        }
        None
    }

    /// Everything goes.
    pub fn clear(&mut self)
        ensures
            final(self).wf(),
            final(self).shown is None,
            forall|i: int| 0 <= i < IMAGE_SLOTS ==> #[trigger] final(self).slots@[i] is None,
    {
        *self = Textures::new();
    }
}

/// Pixels serve for those of the same file that they are, or that are worse: never for another file's,
/// and never for better ones. The full image serves for its preview, and a preview for its stand-in.
pub proof fn law_serves(a: Tex, b: Tex)
    ensures
        a.good_for(a),
        a.path != b.path ==> !a.good_for(b),
        a.path == b.path && a.id != b.id && a.rank <= b.rank ==> !a.good_for(b),
        a.path == b.path && a.rank > b.rank ==> a.good_for(b),
        a.good_for(b) && b.good_for(a) ==> a.path == b.path && a.id == b.id,
{
}

/// What is remembered of pixels is theirs: a stand-in ranks lowest, the full image highest.
pub proof fn law_facts(path: u64, img: Img)
    ensures
        ({
            let t = facts(path, img);
            &&& t.path == path && t.id == img.id && t.w == img.w && t.orient == img.orient
            &&& t.full_w == img.full_w && t.full_h == img.full_h
            &&& img.full ==> t.rank == 2
            &&& !img.full && img.thumb ==> t.rank == 0
            &&& !img.full && !img.thumb ==> t.rank == 1
        }),
{
}

/// Where a file is, is where its number stands first.
pub proof fn law_position(files: Seq<File>, path: u64)
    ensures
        position(files, path) matches Some(i) ==> i < files.len() && files[i as int].path == path && (
        forall|j: int| 0 <= j < i ==> (#[trigger] files[j]).path != path),
        position(files, path) is None ==> forall|j: int|
            0 <= j < files.len() ==> (#[trigger] files[j]).path != path,
    decreases files.len(),
{
    if files.len() > 0 && files[0].path != path {
        let rest = files.skip(1);
        law_position(rest, path);
        match position(rest, path) {
            Some(i) => {
                assert(files[i as int + 1] == rest[i as int]);
                assert forall|j: int| 0 <= j < i + 1 implies (#[trigger] files[j]).path != path by {
                    if j > 0 {
                        assert(files[j] == rest[j - 1]);
                    }
                }
            },
            None => {
                assert forall|j: int| 0 <= j < files.len() implies (#[trigger] files[j]).path != path by {
                    if j > 0 {
                        assert(files[j] == rest[j - 1]);
                    }
                }
            },
        }
    }
}

/// How far a photo is from the current one is the shorter way round the folder: nothing for the current
/// one itself, one for its neighbours, the first and the last being neighbours, and never more than half
/// of the folder. A photo of another folder is farther than all of them.
pub proof fn law_distance(t: Tex, files: Seq<File>, cur: int, a: int)
    requires
        0 <= cur < files.len(),
        files.len() < u64::MAX,
        position(files, t.path) matches Some(i) && i == a,
    ensures
        ({
            let n = files.len() as int;
            let d = distance(Some(t), files, cur);
            let apart = if a >= cur {
                a - cur
            } else {
                cur - a
            };
            &&& 0 <= d && 2 * d <= n
            &&& d == apart || d == n - apart
            &&& d <= apart && d <= n - apart
            &&& a == cur ==> d == 0
            &&& d < distance(None, files, cur)
        }),
{
    let n = files.len() as int;
    law_position(files, t.path);
    if a >= cur {
        vstd::arithmetic::div_mod::lemma_small_mod((a - cur) as nat, n as nat);
    } else {
        vstd::arithmetic::div_mod::lemma_mod_add_multiples_vanish(a - cur, n);
        vstd::arithmetic::div_mod::lemma_small_mod((n + a - cur) as nat, n as nat);
    }
}

/// Which slot is given up for a photo: its own older pixels', where there are any; else an empty one,
/// where there is one; else one that holds another photo than the shown one, and none that could be
/// given up holds one farther away.
pub proof fn law_given_up(x: Textures, path: u64, files: Seq<File>, cur: int, i: int, j: int)
    requires
        x.wf(),
        x.given_up(path, files, cur, i),
        0 <= j < 4,
    ensures
        0 <= i < 4,
        of_file(x.slots@[j], path) ==> x.slots@[i] is Some && x.slots@[i]->0.path == path,
        x.slots@[j] is None ==> x.slots@[i] is None || x.slots@[i]->0.path == path,
        x.slots@[i] is Some && x.slots@[i]->0.path != path ==> {
            &&& x.shown is Some ==> i != x.shown_slot
            &&& x.shown is None || j != x.shown_slot ==> distance(x.slots@[j], files, cur) <= distance(
                x.slots@[i],
                files,
                cur,
            )
            // Of several that are as far the last.
            &&& (x.shown is None || j != x.shown_slot) && distance(x.slots@[j], files, cur) == distance(
                x.slots@[i],
                files,
                cur,
            ) ==> j <= i
        },
        // Of several that are empty the first.
        x.slots@[i] is None && x.slots@[j] is None ==> i <= j,
{
    if of_file(x.slots@[j], path) {
        assert(0 <= j < IMAGE_SLOTS);
    }
}

} // verus!
