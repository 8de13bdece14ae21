//! The folder being browsed: which file is the current one, which come next, and in what order
//! they are wanted.

use crate::files::same_name;
use crate::list::holds;
use crate::loader::{File, Key, PREVIEW, THUMB};
use crate::text::lower;
use vstd::prelude::*;

verus! {

/// A place to start browsing at: a file, or a folder.
pub struct Target {
    pub file: File,
    pub folder: bool,
    /// The folder a file is in, by its number.
    pub parent: Option<u64>,
}

/// What starting to browse asks for.
pub struct Opened {
    /// Jobs to plan at once: the file's stand-in and its preview.
    pub plan: Option<Vec<Key>>,
    /// The folder to list alongside.
    pub list: Option<u64>,
}

/// The folder being browsed.
pub struct Nav {
    pub files: Vec<File>,
    pub cur: usize,
    /// Generation of the listing in flight; older listings are ignored.
    pub generation: u64,
    /// The file that was opened, to find in the listing when it comes.
    pub select: Option<File>,
}

/// The same file: one number, one name.
pub open spec fn same_file(a: File, b: File) -> bool {
    a.path == b.path && a.name@ == b.name@
}

pub fn copy(f: &File) -> (r: File)
    ensures
        same_file(r, *f),
{
    File { path: f.path, name: f.name.clone() }
}

/// One name but for its case. A path without a file name has none to share.
pub open spec fn named_alike(a: File, b: File) -> bool {
    a.name@.len() > 0 && b.name@.len() > 0 && lower(a.name@) == lower(b.name@)
}

fn name_of(f: &File) -> (r: Option<&str>)
    ensures
        r is Some <==> f.name@.len() > 0,
        r matches Some(n) ==> n@ == f.name@,
{
    let n: usize = crate::text::chars_of(f.name.as_str()).len();
    if n > 0 {
        Some(f.name.as_str())
    } else {
        None
    }
}

fn alike(a: &File, b: &File) -> (r: bool)
    ensures
        r == named_alike(*a, *b),
{
    same_name(name_of(a), name_of(b))
}

/// The first of the files with the name of `s`.
pub open spec fn find_name(files: Seq<File>, s: File, i: int) -> bool {
    &&& 0 <= i < files.len()
    &&& named_alike(files[i], s)
    &&& forall|j: int| 0 <= j < i ==> !named_alike(#[trigger] files[j], s)
}

/// What a listing leaves of the folder being browsed. One that was overtaken leaves it as it is. The file
/// that was opened takes the place of the first one named alike, or comes before all the others: it, and not
/// the listed one, since the two can differ in case or spelling.
pub open spec fn listing_taken(before: Nav, after: Nav, generation: u64, files: Seq<File>) -> bool {
    if generation != before.generation {
        after == before
    } else {
        &&& after.generation == generation
        &&& after.select is None
        &&& match before.select {
            None => after.files@ == files && after.cur == 0,
            Some(s) => {
                &&& (forall|i: int| 0 <= i < files.len() ==> !named_alike(#[trigger] files[i], s))
                    ==> after.files@ == files.insert(0, s) && after.cur == 0
                &&& (exists|i: int| 0 <= i < files.len() && named_alike(#[trigger] files[i], s))
                    ==> find_name(files, s, after.cur as int) && after.files@ == files.update(
                    after.cur as int,
                    s,
                )
            },
        }
    }
}

/// The file `d` places on: round the folder where it wraps, or none past its ends.
pub open spec fn near(cur: int, n: int, d: int, wrap: bool) -> Option<int> {
    if wrap {
        Some((cur + d) % n)
    } else if 0 <= cur + d < n {
        Some(cur + d)
    } else {
        None
    }
}

/// Where a step goes: the same, but stopping at the ends.
pub open spec fn stepped(cur: int, n: int, d: int, wrap: bool) -> int {
    if wrap {
        (cur + d) % n
    } else if cur + d < 0 {
        0
    } else if cur + d >= n {
        n - 1
    } else {
        cur + d
    }
}

pub fn near_of(cur: usize, n: usize, d: i128, wrap: bool) -> (r: Option<usize>)
    requires
        cur < n,
        -0x4_0000_0000_0000_0000 <= d <= 0x4_0000_0000_0000_0000,
    ensures
        r matches Some(i) ==> near(cur as int, n as int, d as int, wrap) == Some(i as int) && i < n,
        r is None ==> near(cur as int, n as int, d as int, wrap) is None,
{
    if wrap {
        if d >= 0 {
            let r: u128 = (cur as u128 + d as u128) % n as u128;
            Some(r as usize)
        } else {
            let k: u128 = (-d) as u128 % n as u128;
            let r: u128 = (cur as u128 + (n as u128 - k)) % n as u128;
            proof {
                let ni = n as int;
                vstd::arithmetic::div_mod::lemma_fundamental_div_mod(-d as int, ni);
                let q = (-d as int) / ni;
                assert(cur + d == (cur + (n - k)) + ni * (-q - 1)) by {
                    assert(ni * (-q - 1) == -(ni * q) - ni) by (nonlinear_arith);
                }
                vstd::arithmetic::div_mod::lemma_mod_multiples_vanish(
                    -q - 1,
                    cur + (n - k),
                    ni,
                );
            }
            Some(r as usize)
        }
    } else {
        let i: i128 = cur as i128 + d;
        if 0 <= i && i < n as i128 {
            Some(i as usize)
        } else {
            None
        }
    }
}

/// The list with one more, unless it is there already.
pub open spec fn with(s: Seq<usize>, o: Option<int>) -> Seq<usize> {
    match o {
        Some(i) => if s.contains(i as usize) {
            s
        } else {
            s.push(i as usize)
        },
        None => s,
    }
}

/// The files around the current one in the order they are wanted, up to `k` places away: the next
/// in the direction of travel, the one behind, the one after next, and so on.
pub open spec fn around(
    cur: int,
    n: int,
    dir: int,
    wrap: bool,
    ahead: nat,
    behind: nat,
    k: nat,
) -> Seq<usize>
    decreases k,
{
    if k == 0 {
        seq![cur as usize]
    } else {
        let s = around(cur, n, dir, wrap, ahead, behind, (k - 1) as nat);
        let s = if k <= ahead {
            with(s, near(cur, n, k * dir, wrap))
        } else {
            s
        };
        if k <= behind {
            with(s, near(cur, n, -k * dir, wrap))
        } else {
            s
        }
    }
}

fn push_new(v: &mut Vec<usize>, o: Option<usize>)
    ensures
        final(v)@ == with(
            old(v)@,
            match o {
                Some(i) => Some(i as int),
                None => None,
            },
        ),
{
    match o {
        Some(i) => if !holds(v, i) {
            v.push(i);
        },
        None => {},
    }
}

impl Nav {
    /// The current file is one of the folder's, or there is none.
    pub open spec fn wf(self) -> bool {
        self.cur < self.files@.len() || (self.files@.len() == 0 && self.cur == 0)
    }

    /// The current file.
    pub open spec fn current(self) -> Option<File> {
        if self.cur < self.files@.len() {
            Some(self.files@[self.cur as int])
        } else {
            None
        }
    }

    pub fn empty() -> (r: Nav)
        ensures
            r.wf(),
            r.files@.len() == 0,
            r.cur == 0,
            r.generation == 0,
            r.select is None,
    {
        Nav { files: Vec::new(), cur: 0, generation: 0, select: None }
    }

    /// Start browsing at a file or a folder: the file's preview is asked for at once, its folder is
    /// listed alongside.
    pub fn open(t: Target, generation: u64) -> (r: (Nav, Opened))
        ensures
            r.0.wf(),
            r.0.cur == 0,
            r.0.generation == generation.wrapping_add(1),
            t.folder ==> {
                &&& r.0.files@.len() == 0
                &&& r.0.select is None
                &&& r.1.plan is None
                &&& r.1.list == Some(t.file.path)
            },
            !t.folder ==> {
                &&& r.0.files@.len() == 1
                &&& same_file(r.0.files@[0], t.file)
                &&& r.0.select == Some(t.file)
                &&& r.1.plan is Some
                &&& r.1.plan->0@ == seq![
                    Key { path: t.file.path, kind: THUMB },
                    Key { path: t.file.path, kind: PREVIEW },
                ]
                &&& r.1.list == t.parent
            },
    {
        let generation: u64 = generation.wrapping_add(1);
        if t.folder {
            return (
                Nav { files: Vec::new(), cur: 0, generation, select: None },
                Opened { plan: None, list: Some(t.file.path) },
            );
        }
        let mut plan: Vec<Key> = Vec::new();
        plan.push(Key { path: t.file.path, kind: THUMB });
        plan.push(Key { path: t.file.path, kind: PREVIEW });
        assert(plan@ =~= seq![
            Key { path: t.file.path, kind: THUMB },
            Key { path: t.file.path, kind: PREVIEW },
        ]);
        let mut files: Vec<File> = Vec::new();
        files.push(copy(&t.file));
        (
            Nav { files, cur: 0, generation, select: Some(t.file) },
            Opened { plan: Some(plan), list: t.parent },
        )
    }

    /// Nothing to browse; listings still in flight stay ignored.
    pub fn close(&mut self)
        ensures
            final(self).wf(),
            final(self).files@.len() == 0,
            final(self).cur == 0,
            final(self).select is None,
            final(self).generation == old(self).generation,
    {
        self.files = Vec::new();
        self.cur = 0;
        self.select = None;
    }

    /// Go to a file, where that is another one.
    pub fn go(&mut self, i: usize) -> (changed: bool)
        requires
            old(self).wf(),
        ensures
            final(self).wf(),
            changed == (i != old(self).cur && i < old(self).files@.len()),
            final(self).cur == (if changed {
                i
            } else {
                old(self).cur
            }),
            final(self).files == old(self).files,
            final(self).generation == old(self).generation,
            final(self).select == old(self).select,
    {
        if i == self.cur || i >= self.files.len() {
            return false;
        }
        self.cur = i;
        true
    }

    /// Where the file `d` places on is, or so far back where `d` is below zero: after the last
    /// image comes the first, or it stays.
    pub fn step(&self, d: isize, wrap: bool) -> (r: Option<usize>)
        requires
            self.wf(),
        ensures
            r is None <==> self.files@.len() == 0,
            r matches Some(i) ==> i < self.files@.len() && i == stepped(
                self.cur as int,
                self.files@.len() as int,
                d as int,
                wrap,
            ),
    {
        let n: usize = self.files.len();
        if n == 0 {
            return None;
        }
        match near_of(self.cur, n, d as i128, wrap) {
            Some(i) => Some(i),
            None => Some(
                if d < 0 {
                    0
                } else {
                    n - 1
                },
            ),
        }
    }

    /// The files to decode, the current one first.
    pub fn order(&self, dir: i8, wrap: bool, ahead: usize, behind: usize) -> (r: Vec<usize>)
        requires
            self.wf(),
            self.files@.len() > 0,
            dir == 1 || dir == -1,
        ensures
            r@ == around(
                self.cur as int,
                self.files@.len() as int,
                dir as int,
                wrap,
                ahead as nat,
                behind as nat,
                (if ahead > behind {
                    ahead
                } else {
                    behind
                }) as nat,
            ),
            r@.len() > 0,
            r@[0] == self.cur,
            forall|i: int| 0 <= i < r@.len() ==> #[trigger] r@[i] < self.files@.len(),
    {
        let n: usize = self.files.len();
        let most: usize = if ahead > behind {
            ahead
        } else {
            behind
        };
        let mut v: Vec<usize> = Vec::new();
        v.push(self.cur);
        assert(v@ =~= seq![self.cur]);
        for j in 0..most
            invariant
                n == self.files@.len(),
                self.cur < n,
                dir == 1 || dir == -1,
                v@ == around(
                    self.cur as int,
                    n as int,
                    dir as int,
                    wrap,
                    ahead as nat,
                    behind as nat,
                    j as nat,
                ),
                v@.len() > 0,
                v@[0] == self.cur,
                forall|i: int| 0 <= i < v@.len() ==> #[trigger] v@[i] < n,
        {
            let k: i128 = j as i128 + 1;
            let fwd: i128 = if dir == 1 {
                k
            } else {
                -k
            };
            assert(fwd == (j + 1) * (dir as int)) by (nonlinear_arith)
                requires
                    dir == 1 || dir == -1,
                    fwd == (if dir == 1 {
                        j + 1
                    } else {
                        -(j + 1)
                    }),
            ;
            assert(-fwd == -(j + 1) * (dir as int)) by (nonlinear_arith)
                requires
                    dir == 1 || dir == -1,
                    fwd == (if dir == 1 {
                        j + 1
                    } else {
                        -(j + 1)
                    }),
            ;
            if j < ahead {
                push_new(&mut v, near_of(self.cur, n, fwd, wrap));
            }
            if j < behind {
                push_new(&mut v, near_of(self.cur, n, -fwd, wrap));
            }
        }
        v
    }

    /// A listing came. The file that was opened is found in it by its name, and stands there as it
    /// was opened (the cache is keyed by that path, and the two can differ in case or spelling); a
    /// file that is not listed comes first. Older listings are ignored.
    pub fn listed(&mut self, generation: u64, files: Vec<File>) -> (taken: bool)
        requires
            old(self).wf(),
        ensures
            final(self).wf(),
            taken == (generation == old(self).generation),
            listing_taken(*old(self), *final(self), generation, files@),
    {
        if generation != self.generation {
            return false;
        }
        let select = self.select.take();
        let mut files = files;
        self.cur = 0;
        match select {
            Some(s) => {
                let n: usize = files.len();
                let mut at: usize = n;
                let ghost listing = files@;
                let mut i: usize = 0;
                while i < n && at == n
                    invariant
                        n == files@.len(),
                        i <= n,
                        at == n ==> forall|j: int|
                            0 <= j < i ==> !named_alike(#[trigger] files@[j], s),
                        at < n ==> find_name(files@, s, at as int),
                        at <= n,
                    decreases n - i + (if at == n {
                        1int
                    } else {
                        0
                    }),
                {
                    if alike(&files[i], &s) {
                        at = i;
                    } else {
                        i = i + 1;
                    }
                }
                if at < n {
                    files.set(at, s);
                    self.cur = at;
                } else {
                    files.insert(0, s);
                }
            },
            None => {},
        }
        self.files = files;
        true
    }

    /// The current file is gone: the one after it is current, or the last.
    pub fn remove(&mut self)
        requires
            old(self).wf(),
            old(self).files@.len() > 0,
        ensures
            final(self).wf(),
            final(self).files@ == old(self).files@.remove(old(self).cur as int),
            final(self).cur == (if old(self).cur < old(self).files@.len() - 1 {
                old(self).cur as int
            } else if old(self).files@.len() >= 2 {
                old(self).files@.len() - 2
            } else {
                0
            }),
            final(self).generation == old(self).generation,
            final(self).select == old(self).select,
    {
        self.files.remove(self.cur);
        let n: usize = self.files.len();
        if self.cur >= n {
            self.cur = if n > 0 {
                n - 1
            } else {
                0
            };
        }
    }
}

/// Any number of places on and as many back return, where the folder wraps.
pub proof fn law_step_returns(cur: int, n: int, d: int)
    requires
        0 <= cur < n,
    ensures
        stepped(stepped(cur, n, d, true), n, -d, true) == cur,
{
    let there = cur + d;
    vstd::arithmetic::div_mod::lemma_fundamental_div_mod(there, n);
    let q = there / n;
    assert(there % n - d == cur + n * (-q)) by {
        assert(n * (-q) == -(n * q)) by (nonlinear_arith);
    }
    vstd::arithmetic::div_mod::lemma_mod_multiples_vanish(-q, cur, n);
    vstd::arithmetic::div_mod::lemma_small_mod(cur as nat, n as nat);
}

/// Without wrapping, no step leaves the folder, and one past an end stays at it.
pub proof fn law_ends_hold(cur: int, n: int, d: int)
    requires
        0 <= cur < n,
    ensures
        0 <= stepped(cur, n, d, false) < n,
        d >= n - 1 - cur ==> stepped(cur, n, d, false) == n - 1,
        d <= -cur ==> stepped(cur, n, d, false) == 0,
{
}

proof fn lemma_with(s: Seq<usize>, o: Option<int>)
    requires
        s.no_duplicates(),
    ensures
        with(s, o).no_duplicates(),
        s.len() <= with(s, o).len() <= s.len() + 1,
{
}

/// No file is wanted twice, and no more of them than the settings ask for.
pub proof fn law_each_wanted_once(
    cur: int,
    n: int,
    dir: int,
    wrap: bool,
    ahead: nat,
    behind: nat,
    k: nat,
)
    ensures
        around(cur, n, dir, wrap, ahead, behind, k).no_duplicates(),
        around(cur, n, dir, wrap, ahead, behind, k).len() <= 1 + (if k < ahead {
            k
        } else {
            ahead
        }) + (if k < behind {
            k
        } else {
            behind
        }),
    decreases k,
{
    if k > 0 {
        law_each_wanted_once(cur, n, dir, wrap, ahead, behind, (k - 1) as nat);
        let s = around(cur, n, dir, wrap, ahead, behind, (k - 1) as nat);
        lemma_with(s, near(cur, n, k * dir, wrap));
        let t = if k <= ahead {
            with(s, near(cur, n, k * dir, wrap))
        } else {
            s
        };
        lemma_with(t, near(cur, n, -k * dir, wrap));
    }
}

/// The file that was opened is the current one once its folder is listed, and all the other files of the
/// folder are there.
pub proof fn law_opened_is_current(before: Nav, after: Nav, files: Seq<File>, i: int)
    requires
        before.select is Some,
        listing_taken(before, after, before.generation, files),
        0 <= i < files.len(),
    ensures
        after.cur < after.files@.len(),
        after.files@[after.cur as int] == before.select->0,
        named_alike(files[i], before.select->0) || after.files@.contains(files[i]),
{
    let s = before.select->0;
    if exists|j: int| 0 <= j < files.len() && named_alike(#[trigger] files[j], s) {
        if i != after.cur {
            assert(after.files@[i] == files[i]);
        }
    } else {
        assert(after.files@[i + 1] == files[i]);
    }
}

/// A listing that was overtaken by another opening changes nothing.
pub proof fn law_late_listing_ignored(before: Nav, after: Nav, generation: u64, files: Seq<File>)
    requires
        generation != before.generation,
        listing_taken(before, after, generation, files),
    ensures
        after == before,
{
}

/// A place so far on is that far on: in a folder that wraps, but for whole rounds of it; in one that does
/// not, only where it is in the folder.
pub proof fn law_near(cur: int, n: int, d: int)
    requires
        0 <= cur < n,
    ensures
        near(cur, n, d, true) matches Some(r) && 0 <= r < n && (r - cur - d) % n == 0,
        near(cur, n, d, false) matches Some(r) ==> r == cur + d && 0 <= r < n,
        0 <= cur + d < n ==> near(cur, n, d, false) is Some && near(cur, n, d, true) == near(
            cur,
            n,
            d,
            false,
        ),
{
    let r = (cur + d) % n;
    vstd::arithmetic::div_mod::lemma_fundamental_div_mod(cur + d, n);
    let q = (cur + d) / n;
    assert(r - cur - d == n * (-q)) by {
        assert(n * (-q) == -(n * q)) by (nonlinear_arith);
    }
    vstd::arithmetic::div_mod::lemma_mod_multiples_basic(-q, n);
    assert((-q) * n == n * (-q)) by (nonlinear_arith);
    if 0 <= cur + d < n {
        vstd::arithmetic::div_mod::lemma_small_mod((cur + d) as nat, n as nat);
    }
}

/// A step goes as far on as it is long, and so far back where it is below zero: in a folder that wraps,
/// after the last image comes the first and before the first the last; in one that does not, it stops
/// at the ends.
pub proof fn law_step(cur: int, n: int, d: int)
    requires
        0 <= cur < n,
    ensures
        0 <= stepped(cur, n, d, true) < n,
        (stepped(cur, n, d, true) - cur - d) % n == 0,
        0 <= cur + d < n ==> stepped(cur, n, d, true) == cur + d && stepped(cur, n, d, false) == cur + d,
        cur + d >= n ==> stepped(cur, n, d, false) == n - 1,
        cur + d < 0 ==> stepped(cur, n, d, false) == 0,
        stepped(n - 1, n, 1, true) == 0,
        stepped(0, n, -1, true) == n - 1,
{
    law_near(cur, n, d);
    law_near(n - 1, n, 1);
    vstd::arithmetic::div_mod::lemma_mod_self_0(n);
    vstd::arithmetic::div_mod::lemma_mod_add_multiples_vanish(-1, n);
    vstd::arithmetic::div_mod::lemma_small_mod((n - 1) as nat, n as nat);
}

proof fn lemma_with_holds(s: Seq<usize>, o: Option<int>, i: int)
    requires
        0 <= i <= usize::MAX,
        o matches Some(j) ==> 0 <= j <= usize::MAX,
    ensures
        with(s, o).contains(i as usize) <==> s.contains(i as usize) || o == Some(i),
{
    match o {
        Some(j) => {
            if !s.contains(j as usize) {
                let t = s.push(j as usize);
                assert(t[s.len() as int] == j as usize);
                if s.contains(i as usize) {
                    let k = choose|k: int| 0 <= k < s.len() && s[k] == i as usize;
                    assert(t[k] == i as usize);
                }
                if t.contains(i as usize) && i != j {
                    let k = choose|k: int| 0 <= k < t.len() && t[k] == i as usize;
                    assert(s[k] == i as usize);
                }
            }
        },
        None => {},
    }
}

/// The files wanted are those as far ahead as is asked for, in the direction of travel, and those as far
/// behind; and the current one.
pub proof fn law_wanted_around(
    cur: int,
    n: int,
    dir: int,
    wrap: bool,
    ahead: nat,
    behind: nat,
    k: nat,
    i: int,
)
    requires
        0 <= cur < n <= usize::MAX,
        dir == 1 || dir == -1,
        0 <= i < n,
    ensures
        around(cur, n, dir, wrap, ahead, behind, k).contains(i as usize) <==> i == cur || exists|j: int|
            1 <= j <= k && ((j <= ahead && #[trigger] near(cur, n, j * dir, wrap) == Some(i)) || (j
                <= behind && near(cur, n, -j * dir, wrap) == Some(i))),
    decreases k,
{
    let now = around(cur, n, dir, wrap, ahead, behind, k);
    if k == 0 {
        assert(now[0] == cur as usize);
    } else {
        let m = (k - 1) as nat;
        let s = around(cur, n, dir, wrap, ahead, behind, m);
        law_wanted_around(cur, n, dir, wrap, ahead, behind, m, i);
        let a = near(cur, n, k * dir, wrap);
        let b = near(cur, n, -k * dir, wrap);
        law_near(cur, n, k * dir);
        law_near(cur, n, -k * dir);
        let t = if k <= ahead {
            with(s, a)
        } else {
            s
        };
        lemma_with_holds(s, a, i);
        lemma_with_holds(t, b, i);
        if k <= ahead && a == Some(i) {
            assert(near(cur, n, (k as int) * dir, wrap) == Some(i));
        }
        if k <= behind && b == Some(i) {
            assert(near(cur, n, (k as int) * dir, wrap) == a);
        }
        if s.contains(i as usize) && i != cur {
            let j = choose|j: int|
                1 <= j <= m && ((j <= ahead && #[trigger] near(cur, n, j * dir, wrap) == Some(i)) || (j
                    <= behind && near(cur, n, -j * dir, wrap) == Some(i)));
            assert(1 <= j <= k);
        }
        if now.contains(i as usize) {
        } else {
            assert forall|j: int| 1 <= j <= k implies !((j <= ahead && #[trigger] near(
                cur,
                n,
                j * dir,
                wrap,
            ) == Some(i)) || (j <= behind && near(cur, n, -j * dir, wrap) == Some(i))) by {
                if j <= m {
                }
            }
        }
    }
}

/// In a folder that does not wrap, that is a stretch of it: no file in it is left out, and none beyond.
pub proof fn law_wanted_stretch(
    cur: int,
    n: int,
    dir: int,
    ahead: nat,
    behind: nat,
    k: nat,
    i: int,
)
    requires
        0 <= cur < n <= usize::MAX,
        dir == 1 || dir == -1,
        0 <= i < n,
        k >= ahead,
        k >= behind,
    ensures
        ({
            let s = around(cur, n, dir, false, ahead, behind, k);
            &&& dir == 1 ==> (s.contains(i as usize) <==> cur - behind <= i <= cur + ahead)
            &&& dir == -1 ==> (s.contains(i as usize) <==> cur - ahead <= i <= cur + behind)
        }),
{
    law_wanted_around(cur, n, dir, false, ahead, behind, k, i);
    let d = (i - cur) * dir;
    assert(d == (if dir == 1 {
        i - cur
    } else {
        cur - i
    }));
    let s = around(cur, n, dir, false, ahead, behind, k);
    if d > 0 {
        assert(d * dir == i - cur) by (nonlinear_arith)
            requires
                d == (i - cur) * dir,
                dir == 1 || dir == -1,
        ;
        assert(near(cur, n, d * dir, false) == Some(i));
    } else if d < 0 {
        let j = -d;
        assert(-j * dir == i - cur && j * dir == cur - i) by (nonlinear_arith)
            requires
                d == (i - cur) * dir,
                j == -d,
                dir == 1 || dir == -1,
        ;
        assert(near(cur, n, j * dir, false) == near(cur, n, cur - i, false));
    }
    if s.contains(i as usize) && i != cur {
        let j = choose|j: int|
            1 <= j <= k && ((j <= ahead && #[trigger] near(cur, n, j * dir, false) == Some(i)) || (j
                <= behind && near(cur, n, -j * dir, false) == Some(i)));
        assert(j * dir == (if dir == 1 {
            j
        } else {
            -j
        }) && -j * dir == (if dir == 1 {
            -j
        } else {
            j
        }));
    }
}

/// The next file in the direction of travel is wanted right after the current one, and then the one
/// behind: those are the likeliest to be flipped to.
pub proof fn law_next_file_first(cur: int, n: int, dir: int, ahead: nat, behind: nat, k: nat)
    requires
        0 <= cur < n <= usize::MAX,
        dir == 1 || dir == -1,
        k >= 1,
        ahead >= 1,
    ensures
        ({
            let s = around(cur, n, dir, false, ahead, behind, k);
            let next = 0 <= cur + dir < n;
            let prev = behind >= 1 && 0 <= cur - dir < n;
            &&& s.len() >= 1 && s[0] == cur
            &&& next ==> s.len() >= 2 && s[1] == cur + dir
            &&& next && prev ==> s.len() >= 3 && s[2] == cur - dir
            &&& !next && prev ==> s.len() >= 2 && s[1] == cur - dir
        }),
    decreases k,
{
    let s = around(cur, n, dir, false, ahead, behind, k);
    if k == 1 {
        reveal_with_fuel(around, 2);
        let z = seq![cur as usize];
        assert(z[0] == cur as usize);
        assert(around(cur, n, dir, false, ahead, behind, 0) == z);
        assert((k as int) * dir == dir && -(k as int) * dir == -dir);
        if 0 <= cur + dir < n {
            assert(!z.contains((cur + dir) as usize));
            let t = z.push((cur + dir) as usize);
            assert(t[0] == cur as usize && t[1] == (cur + dir) as usize);
            assert(!t.contains((cur - dir) as usize) || !(0 <= cur - dir < n));
        } else {
            assert(!z.contains((cur - dir) as usize) || !(0 <= cur - dir < n));
        }
    } else {
        let t = around(cur, n, dir, false, ahead, behind, (k - 1) as nat);
        law_next_file_first(cur, n, dir, ahead, behind, (k - 1) as nat);
        lemma_around_grows(cur, n, dir, false, ahead, behind, k);
    }
}

/// What is wanted first stays first: files further away come behind.
pub proof fn lemma_around_grows(
    cur: int,
    n: int,
    dir: int,
    wrap: bool,
    ahead: nat,
    behind: nat,
    k: nat,
)
    requires
        k > 0,
    ensures
        ({
            let s = around(cur, n, dir, wrap, ahead, behind, k);
            let t = around(cur, n, dir, wrap, ahead, behind, (k - 1) as nat);
            s.len() >= t.len() && forall|i: int| 0 <= i < t.len() ==> #[trigger] s[i] == t[i]
        }),
{
}

/// A name is shared whatever its case; a path without one shares it with none.
pub proof fn law_named_alike(a: File, b: File)
    ensures
        named_alike(a, b) == named_alike(b, a),
        a.name@.len() > 0 ==> named_alike(a, a),
        a.name@.len() == 0 ==> !named_alike(a, b),
        a.name@.len() > 0 && a.name@ == b.name@ ==> named_alike(a, b),
        lower(a.name@) != lower(b.name@) ==> !named_alike(a, b),
{
}

/// A listing is taken in its own order: the file that was opened stands where it was listed, and before
/// all others where it was not.
pub proof fn law_listing_in_order(before: Nav, after: Nav, files: Seq<File>, i: int)
    requires
        listing_taken(before, after, before.generation, files),
        0 <= i < files.len(),
    ensures
        before.select is None ==> after.files@ == files && after.cur == 0,
        before.select matches Some(s) ==> {
            let listed = exists|j: int| 0 <= j < files.len() && named_alike(#[trigger] files[j], s);
            &&& listed && i != after.cur ==> after.files@[i] == files[i]
            &&& listed ==> after.files@.len() == files.len() && named_alike(files[after.cur as int], s)
            &&& !listed ==> after.cur == 0 && after.files@[0] == s && after.files@[i + 1] == files[i]
        },
        after.select is None,
{
}

/// A file is the same by its number and its name both; the current one is the one the folder has at its
/// place, and there is none past the end.
pub proof fn law_current(nav: Nav, a: File, b: File)
    ensures
        same_file(a, b) ==> a.path == b.path && a.name@ == b.name@,
        a.path == b.path && a.name@ == b.name@ ==> same_file(a, b),
        nav.current() is Some <==> nav.cur < nav.files@.len(),
        nav.current() matches Some(f) ==> f == nav.files@[nav.cur as int],
{
}

} // verus!
