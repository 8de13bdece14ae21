//! The pixels in memory: what is there of each file, what is let go, and what to decode next.

use crate::config::Config;
use crate::list::holds;
use crate::loader::{File, Key, FULL, PREVIEW, THUMB};
use crate::nav::{around, Nav};
use crate::wic::Img;
use std::collections::HashMap;
use vstd::prelude::*;

verus! {

broadcast use vstd::std_specs::hash::group_hash_axioms;

/// What is there of a file.
pub struct Slot {
    pub thumb: Option<Img>,
    pub preview: Option<Img>,
    pub full: Option<Img>,
    pub err: Option<String>,
    /// No thumbnail to be had: not cached by the shell, none in the file. Not an error.
    pub thumb_tried: bool,
}

/// The best pixels of a file.
pub open spec fn best_of(s: Slot) -> Option<Img> {
    if s.full is Some {
        s.full
    } else if s.preview is Some {
        s.preview
    } else {
        s.thumb
    }
}

/// Real pixels, not a stand-in.
pub open spec fn has_real(s: Slot) -> bool {
    s.full is Some || s.preview is Some
}

impl Slot {
    pub fn new() -> (r: Slot)
        ensures
            r.thumb is None && r.preview is None && r.full is None && r.err is None,
            !r.thumb_tried,
    {
        Slot { thumb: None, preview: None, full: None, err: None, thumb_tried: false }
    }

    pub fn best(&self) -> (r: Option<&Img>)
        ensures
            r matches Some(i) ==> best_of(*self) == Some(*i),
            r is None ==> best_of(*self) is None,
    {
        if self.full.is_some() {
            self.full.as_ref()
        } else if self.preview.is_some() {
            self.preview.as_ref()
        } else {
            self.thumb.as_ref()
        }
    }

    pub fn decoded(&self) -> (r: bool)
        ensures
            r == has_real(*self),
    {
        self.full.is_some() || self.preview.is_some()
    }
}

/// What a neighbour keeps: a preview is enough to flip to, and full pixels for every one of them
/// would fill the memory.
pub open spec fn trimmed_slot(s: Slot, current: bool) -> Slot {
    if current || s.preview is None {
        s
    } else {
        Slot { full: None, ..s }
    }
}

/// What stays of the cache: the files wanted, and full pixels only of the current one.
pub open spec fn kept(m: Map<u64, Slot>, keep: Seq<u64>, current: u64) -> Map<u64, Slot> {
    Map::new(
        |p: u64| m.dom().contains(p) && keep.contains(p),
        |p: u64| trimmed_slot(m[p], p == current),
    )
}

/// Nothing is known of the file yet.
pub open spec fn need_preview(m: Map<u64, Slot>, p: u64) -> bool {
    !m.dom().contains(p) || (!has_real(m[p]) && m[p].err is None)
}

/// A stand-in is of use only where there is nothing to show yet.
pub open spec fn need_thumb(m: Map<u64, Slot>, p: u64) -> bool {
    !m.dom().contains(p) || (best_of(m[p]) is None && m[p].err is None && !m[p].thumb_tried)
}

/// The current image's full pixels are still to come.
pub open spec fn need_full(m: Map<u64, Slot>, p: u64) -> bool {
    m.dom().contains(p) && m[p].preview is Some && m[p].full is None && m[p].err is None
}

/// The jobs of the first `k` files: a stand-in for the first three, a preview, and after the first
/// neighbour the current image in full. Flipping on is the likelier next move than zooming in.
pub open spec fn jobs_of(paths: Seq<u64>, m: Map<u64, Slot>, k: nat) -> Seq<Key>
    decreases k,
{
    if k == 0 {
        seq![]
    } else {
        let i = k - 1;
        let p = paths[i];
        let last = if paths.len() > 1 {
            1int
        } else {
            0
        };
        jobs_of(paths, m, (k - 1) as nat) + (if i <= 2 && need_thumb(m, p) {
            seq![Key { path: p, kind: THUMB }]
        } else {
            seq![]
        }) + (if need_preview(m, p) {
            seq![Key { path: p, kind: PREVIEW }]
        } else {
            seq![]
        }) + (if i == last && need_full(m, paths[0]) {
            seq![Key { path: paths[0], kind: FULL }]
        } else {
            seq![]
        })
    }
}

/// The numbers of the files at these places.
pub open spec fn numbers(files: Seq<File>, order: Seq<usize>) -> Seq<u64> {
    order.map_values(|i: usize| files[i as int].path)
}

/// The files wanted, the current one first.
pub open spec fn wanted(nav: Nav, dir: int, cfg: Config) -> Seq<u64> {
    numbers(
        nav.files@,
        around(
            nav.cur as int,
            nav.files@.len() as int,
            dir,
            cfg.wrap,
            cfg.prefetch_ahead as nat,
            cfg.prefetch_behind as nat,
            (if cfg.prefetch_ahead > cfg.prefetch_behind {
                cfg.prefetch_ahead
            } else {
                cfg.prefetch_behind
            }) as nat,
        ),
    )
}

/// What scheduling gives: the jobs in their order, and the pixels let go, to be freed where that
/// does not hold up a frame.
pub struct Scheduled {
    pub jobs: Vec<Key>,
    pub gone: HashMap<u64, Slot>,
    pub freed: Vec<Img>,
}

pub struct Store {
    pub cache: HashMap<u64, Slot>,
    /// The files whose pixels are wanted.
    pub keep: Vec<u64>,
}

impl Store {
    pub fn new() -> (r: Store)
        ensures
            r.cache@ == Map::<u64, Slot>::empty(),
            r.keep@ == Seq::<u64>::empty(),
    {
        Store { cache: HashMap::new(), keep: Vec::new() }
    }

    pub fn get(&self, p: u64) -> (r: Option<&Slot>)
        ensures
            r matches Some(s) ==> self.cache@.dom().contains(p) && *s == self.cache@[p],
            r is None ==> !self.cache@.dom().contains(p),
    {
        self.cache.get(&p)
    }

    /// Everything goes.
    pub fn clear(&mut self) -> (gone: HashMap<u64, Slot>)
        ensures
            final(self).cache@ == Map::<u64, Slot>::empty(),
            final(self).keep@ == Seq::<u64>::empty(),
            gone@ == old(self).cache@,
    {
        let mut gone: HashMap<u64, Slot> = HashMap::new();
        std::mem::swap(&mut gone, &mut self.cache);
        self.keep = Vec::new();
        gone
    }

    /// A file is gone.
    pub fn remove(&mut self, p: u64) -> (r: Option<Slot>)
        ensures
            final(self).cache@ == old(self).cache@.remove(p),
            final(self).keep == old(self).keep,
            r is Some <==> old(self).cache@.dom().contains(p),
            r matches Some(s) ==> s == old(self).cache@[p],
    {
        self.cache.remove(&p)
    }

    /// Decide what is wanted now, in order: this image, the next one in the direction of travel,
    /// this image in full, then the rest of the window around it. Everything else is let go.
    pub fn schedule(&mut self, nav: &Nav, dir: i8, cfg: &Config) -> (r: Scheduled)
        requires
            nav.wf(),
            dir == 1 || dir == -1,
        ensures
            nav.files@.len() == 0 ==> {
                &&& final(self).cache@ == Map::<u64, Slot>::empty()
                &&& final(self).keep@ == Seq::<u64>::empty()
                &&& r.jobs@ == Seq::<Key>::empty()
                &&& r.gone@ == old(self).cache@
                &&& r.freed@ == Seq::<Img>::empty()
            },
            nav.files@.len() > 0 ==> {
                let w = wanted(*nav, dir as int, *cfg);
                &&& w.len() > 0
                &&& w[0] == nav.files@[nav.cur as int].path
                &&& final(self).keep@ == w
                &&& final(self).cache@ == kept(old(self).cache@, w, w[0])
                &&& r.jobs@ == jobs_of(w, final(self).cache@, w.len())
                &&& r.gone@ == old(self).cache@.remove_keys(w.to_set())
                &&& r.freed@ == fulls_of(w, old(self).cache@, w.len())
            },
    {
        if nav.files.len() == 0 {
            let gone = self.clear();
            return Scheduled { jobs: Vec::new(), gone, freed: Vec::new() };
        }
        let order = nav.order(dir, cfg.wrap, cfg.prefetch_ahead, cfg.prefetch_behind);
        let mut w: Vec<u64> = Vec::new();
        let n: usize = order.len();
        for i in 0..n
            invariant
                n == order@.len(),
                forall|i: int| 0 <= i < order@.len() ==> #[trigger] order@[i] < nav.files@.len(),
                w@ == numbers(nav.files@, order@).take(i as int),
        {
            w.push(nav.files[order[i]].path);
            assert(w@ =~= numbers(nav.files@, order@).take(i + 1));
        }
        assert(w@ =~= numbers(nav.files@, order@));
        assert(w@[0] == nav.files@[order@[0] as int].path);
        let ghost before = old(self).cache@;
        let current: u64 = w[0];
        let mut stays: HashMap<u64, Slot> = HashMap::new();
        let mut freed: Vec<Img> = Vec::new();
        for i in 0..n
            invariant
                n == w@.len(),
                n > 0,
                current == w@[0],
                before == old(self).cache@,
                forall|p: u64| #[trigger]
                    stays@.dom().contains(p) <==> before.dom().contains(p) && w@.take(
                        i as int,
                    ).contains(p),
                forall|p: u64| #[trigger]
                    stays@.dom().contains(p) ==> stays@[p] == trimmed_slot(
                        before[p],
                        p == current,
                    ),
                forall|p: u64| #[trigger]
                    self.cache@.dom().contains(p) <==> before.dom().contains(p) && !w@.take(
                        i as int,
                    ).contains(p),
                forall|p: u64| #[trigger]
                    self.cache@.dom().contains(p) ==> self.cache@[p] == before[p],
                freed@ == fulls_of(w@, before, i as nat),
        {
            let p: u64 = w[i];
            let ghost had = self.cache@;
            let ghost held = stays@;
            let ghost t = w@.take(i as int);
            let ghost u = w@.take(i + 1);
            assert(u =~= t.push(p));
            assert forall|q: u64| u.contains(q) <==> t.contains(q) || q == p by {
                if t.contains(q) {
                    let j = choose|j: int| 0 <= j < t.len() && t[j] == q;
                    assert(u[j] == q);
                }
                assert(u[i as int] == p);
                if u.contains(q) && q != p {
                    let j = choose|j: int| 0 <= j < u.len() && u[j] == q;
                    assert(t[j] == q);
                }
            }
            match self.cache.remove(&p) {
                Some(s) => {
                    assert(had.dom().contains(p) && s == before[p]);
                    let mut s = s;
                    if p != current && s.preview.is_some() {
                        match s.full.take() {
                            Some(f) => freed.push(f),
                            None => {},
                        }
                    }
                    assert(s == trimmed_slot(before[p], p == current));
                    stays.insert(p, s);
                },
                None => {
                    assert(!had.dom().contains(p));
                },
            }
        }
        assert(w@.take(n as int) =~= w@);
        assert(stays@ =~= kept(before, w@, current));
        assert(self.cache@ =~= before.remove_keys(w@.to_set()));
        let mut gone: HashMap<u64, Slot> = HashMap::new();
        std::mem::swap(&mut gone, &mut self.cache);
        self.cache = stays;
        let jobs = self.jobs(&w);
        self.keep = w;
        Scheduled { jobs, gone, freed }
    }

    fn jobs(&self, w: &Vec<u64>) -> (jobs: Vec<Key>)
        requires
            w@.len() > 0,
        ensures
            jobs@ == jobs_of(w@, self.cache@, w@.len()),
    {
        let n: usize = w.len();
        let last: usize = if n > 1 {
            1
        } else {
            0
        };
        let current: u64 = w[0];
        let full: bool = match self.get(current) {
            Some(s) => s.preview.is_some() && s.full.is_none() && s.err.is_none(),
            None => false,
        };
        let mut jobs: Vec<Key> = Vec::new();
        for i in 0..n
            invariant
                n == w@.len(),
                n > 0,
                current == w@[0],
                last == (if n > 1 {
                    1int
                } else {
                    0
                }),
                full == need_full(self.cache@, current),
                jobs@ == jobs_of(w@, self.cache@, i as nat),
        {
            let p: u64 = w[i];
            let ghost was = jobs@;
            let (thumb, preview): (bool, bool) = match self.get(p) {
                Some(s) => (
                    s.best().is_none() && s.err.is_none() && !s.thumb_tried,
                    !s.decoded() && s.err.is_none(),
                ),
                None => (true, true),
            };
            assert(thumb == need_thumb(self.cache@, p));
            assert(preview == need_preview(self.cache@, p));
            if i <= 2 && thumb {
                jobs.push(Key { path: p, kind: THUMB });
            }
            if preview {
                jobs.push(Key { path: p, kind: PREVIEW });
            }
            if i == last && full {
                jobs.push(Key { path: current, kind: FULL });
            }
            assert(jobs@ =~= jobs_of(w@, self.cache@, (i + 1) as nat));
        }
        jobs
    }

    /// A decode is over. Pixels of a file no longer wanted are handed back; so is a stand-in that
    /// real pixels came before, and one that they replace. A stand-in that could not be had is not
    /// an error.
    pub fn receive(&mut self, path: u64, kind: u8, img: Result<Img, String>) -> (r: (
        bool,
        Option<Img>,
    ))
        ensures
            final(self).keep == old(self).keep,
            r.0 == old(self).keep@.contains(path),
            !r.0 ==> final(self).cache@ == old(self).cache@,
            !r.0 ==> r.1 == (match img {
                Ok(i) => Some(i),
                Err(_) => None,
            }),
            r.0 ==> {
                let s = if old(self).cache@.dom().contains(path) {
                    old(self).cache@[path]
                } else {
                    empty_slot()
                };
                &&& final(self).cache@ == old(self).cache@.insert(path, taken_in(s, kind, img))
                &&& r.1 == left_over(s, kind, img)
            },
    {
        if !holds(&self.keep, path) {
            return (
                false,
                match img {
                    Ok(i) => Some(i),
                    Err(_) => None,
                },
            );
        }
        let ghost before = self.cache@;
        let mut s = match self.cache.remove(&path) {
            Some(s) => s,
            None => Slot::new(),
        };
        let ghost was = s;
        assert(was == (if before.dom().contains(path) {
            before[path]
        } else {
            empty_slot()
        }));
        let mut over: Option<Img> = None;
        match img {
            Ok(i) => {
                if kind == THUMB {
                    if s.decoded() {
                        over = Some(i);
                    } else {
                        s.thumb = Some(i);
                    }
                } else {
                    if i.full {
                        s.full = Some(i);
                    } else {
                        s.preview = Some(i);
                    }
                    over = s.thumb.take();
                }
            },
            Err(e) => {
                if kind == THUMB {
                    s.thumb_tried = true;
                } else {
                    s.err = Some(e);
                }
            },
        }
        self.cache.insert(path, s);
        assert(self.cache@ =~= before.insert(path, taken_in(was, kind, img)));
        (true, over)
    }

    /// The file has something to show, or never will have a stand-in.
    pub fn ready(&self, path: Option<u64>) -> (r: bool)
        ensures
            r == (path is Some && self.cache@.dom().contains(path->0) && {
                let s = self.cache@[path->0];
                best_of(s) is Some || s.err is Some || s.thumb_tried
            }),
    {
        match path {
            Some(p) => match self.get(p) {
                Some(s) => s.best().is_some() || s.err.is_some() || s.thumb_tried,
                None => false,
            },
            None => false,
        }
    }
}

/// The full pixels of the neighbours that have a preview too, among the first `k`.
pub open spec fn fulls_of(w: Seq<u64>, m: Map<u64, Slot>, k: nat) -> Seq<Img>
    decreases k,
{
    if k == 0 {
        seq![]
    } else {
        let p = w[k - 1];
        let before = fulls_of(w, m, (k - 1) as nat);
        if p != w[0] && !w.take(k - 1).contains(p) && m.dom().contains(p) && m[p].preview is Some
            && m[p].full is Some {
            before.push(m[p].full->0)
        } else {
            before
        }
    }
}

pub open spec fn empty_slot() -> Slot {
    Slot { thumb: None, preview: None, full: None, err: None, thumb_tried: false }
}

/// What is there of a file after a decode.
pub open spec fn taken_in(s: Slot, kind: u8, img: Result<Img, String>) -> Slot {
    match img {
        Ok(i) => if kind == THUMB {
            if has_real(s) {
                s
            } else {
                Slot { thumb: Some(i), ..s }
            }
        } else if i.full {
            Slot { full: Some(i), thumb: None, ..s }
        } else {
            Slot { preview: Some(i), thumb: None, ..s }
        },
        Err(e) => if kind == THUMB {
            Slot { thumb_tried: true, ..s }
        } else {
            Slot { err: Some(e), ..s }
        },
    }
}

/// The stand-in that is of no use any more.
pub open spec fn left_over(s: Slot, kind: u8, img: Result<Img, String>) -> Option<Img> {
    match img {
        Ok(i) => if kind == THUMB {
            if has_real(s) {
                Some(i)
            } else {
                None
            }
        } else {
            s.thumb
        },
        Err(_) => None,
    }
}

/// Every job is for a file that is wanted, and is one of the three kinds.
pub proof fn law_jobs_are_wanted(w: Seq<u64>, m: Map<u64, Slot>, k: nat, i: int)
    requires
        k <= w.len(),
        0 <= i < jobs_of(w, m, k).len(),
    ensures
        w.contains(jobs_of(w, m, k)[i].path),
        jobs_of(w, m, k)[i].kind <= FULL,
        jobs_of(w, m, k)[i].kind == FULL ==> jobs_of(w, m, k)[i].path == w[0],
    decreases k,
{
    let before = jobs_of(w, m, (k - 1) as nat);
    if i < before.len() {
        law_jobs_are_wanted(w, m, (k - 1) as nat, i);
        assert(jobs_of(w, m, k)[i] == before[i]);
    } else {
        assert(w[k - 1] == w[k - 1]);
        assert(w.contains(w[k - 1]));
        assert(w.contains(w[0]));
    }
}

proof fn lemma_jobs_grow(w: Seq<u64>, m: Map<u64, Slot>, j: nat, k: nat)
    requires
        j <= k <= w.len(),
    ensures
        jobs_of(w, m, j).len() <= jobs_of(w, m, k).len(),
        jobs_of(w, m, k).take(jobs_of(w, m, j).len() as int) == jobs_of(w, m, j),
    decreases k,
{
    let a = jobs_of(w, m, j);
    if j < k {
        lemma_jobs_grow(w, m, j, (k - 1) as nat);
        let b = jobs_of(w, m, (k - 1) as nat);
        let c = jobs_of(w, m, k);
        assert(c.take(b.len() as int) =~= b);
        assert(c.take(a.len() as int) =~= b.take(a.len() as int));
    } else {
        assert(jobs_of(w, m, k).take(a.len() as int) =~= a);
    }
}

/// The current image comes first: where nothing of it is there yet, its stand-in and its preview
/// are the first two jobs.
pub proof fn law_current_first(w: Seq<u64>, m: Map<u64, Slot>)
    requires
        w.len() > 0,
        !m.dom().contains(w[0]),
    ensures
        jobs_of(w, m, w.len()).len() >= 2,
        jobs_of(w, m, w.len())[0] == (Key { path: w[0], kind: THUMB }),
        jobs_of(w, m, w.len())[1] == (Key { path: w[0], kind: PREVIEW }),
{
    lemma_jobs_grow(w, m, 1, w.len());
    let a = jobs_of(w, m, 1);
    let c = jobs_of(w, m, w.len());
    reveal_with_fuel(jobs_of, 2);
    assert(a =~= seq![Key { path: w[0], kind: THUMB }, Key { path: w[0], kind: PREVIEW }]);
    assert(c.take(a.len() as int)[0] == a[0]);
    assert(c.take(a.len() as int)[1] == a[1]);
}

/// The current image in full comes right after its first neighbour's jobs, before any other file's.
pub proof fn law_full_after_first_neighbour(w: Seq<u64>, m: Map<u64, Slot>)
    requires
        w.len() > 1,
        need_full(m, w[0]),
    ensures
        jobs_of(w, m, 2).len() > 0,
        jobs_of(w, m, 2).last() == (Key { path: w[0], kind: FULL }),
        jobs_of(w, m, w.len()).take(jobs_of(w, m, 2).len() as int) == jobs_of(w, m, 2),
{
    lemma_jobs_grow(w, m, 2, w.len());
}

/// After scheduling, only the current image has full pixels where a preview would do.
pub proof fn law_full_only_for_current(m: Map<u64, Slot>, w: Seq<u64>, p: u64)
    requires
        w.len() > 0,
        kept(m, w, w[0]).dom().contains(p),
        p != w[0],
    ensures
        w.contains(p),
        !(kept(m, w, w[0])[p].full is Some && kept(m, w, w[0])[p].preview is Some),
{
}

/// The best pixels of a file are the full ones, else the preview, and a stand-in only where there is
/// neither.
pub proof fn law_best(s: Slot)
    ensures
        s.full is Some ==> best_of(s) == s.full,
        s.full is None && s.preview is Some ==> best_of(s) == s.preview,
        s.full is None && s.preview is None ==> best_of(s) == s.thumb,
        has_real(s) <==> s.full is Some || s.preview is Some,
{
}

/// What comes of a decode. Full pixels are the best there are from then on. A preview is, unless the full
/// ones are there. A stand-in counts only before either, and goes when they come. A stand-in that could
/// not be had is no error and is not asked for again; any other failure is, and takes nothing away. What
/// is not kept is handed back.
pub proof fn law_decode_taken_in(s: Slot, i: Img, e: String, kind: u8)
    ensures
        ({
            let came = taken_in(s, kind, Ok(i));
            let failed = taken_in(s, kind, Err(e));
            let over = left_over(s, kind, Ok(i));
            &&& kind != 0 && i.full ==> came.full == Some(i) && best_of(came) == Some(i) && came.preview
                == s.preview
            &&& kind != 0 && !i.full ==> came.preview == Some(i) && came.full == s.full
            &&& kind != 0 && !i.full && s.full is None ==> best_of(came) == Some(i)
            &&& kind != 0 && !i.full && s.full is Some ==> best_of(came) == s.full
            &&& kind != 0 ==> came.thumb is None && over == s.thumb
            &&& kind == 0 && s.full is None && s.preview is None ==> best_of(came) == Some(i) && over is None
            &&& kind == 0 && (s.full is Some || s.preview is Some) ==> came == s && over == Some(i)
            &&& came.err == s.err && came.thumb_tried == s.thumb_tried
            &&& kind == 0 ==> failed == (Slot { thumb_tried: true, ..s })
            &&& kind != 0 ==> failed == (Slot { err: Some(e), ..s })
            &&& left_over(s, kind, Err(e)) is None
        }),
{
}

/// A stand-in is asked for of the first three files wanted, where there is nothing to show of them and
/// none was looked for in vain; a preview of every file without pixels of its own; and the full image of
/// the current file alone, once its preview is there. None of a file that failed.
pub proof fn law_jobs_asked_for(w: Seq<u64>, m: Map<u64, Slot>, i: int)
    requires
        0 <= i < w.len(),
    ensures
        ({
            let p = w[i];
            let jobs = jobs_of(w, m, w.len());
            let s = m[p];
            let new = !m.dom().contains(p);
            let failed = !new && s.err is Some;
            let own = !new && (s.full is Some || s.preview is Some);
            let shown = own || (!new && s.thumb is Some);
            &&& i <= 2 && !failed && !shown && (new || !s.thumb_tried) ==> jobs.contains(
                Key { path: p, kind: 0 },
            )
            &&& failed || shown || (!new && s.thumb_tried) ==> !jobs.contains(Key { path: p, kind: 0 })
            &&& !failed && !own <==> jobs.contains(Key { path: p, kind: 1 })
            &&& i == 0 ==> (jobs.contains(Key { path: p, kind: 2 }) <==> !new && !failed && s.preview is Some
                && s.full is None)
            &&& p != w[0] ==> !jobs.contains(Key { path: p, kind: 2 })
        }),
{
    let n = w.len();
    let p = w[i];
    let jobs = jobs_of(w, m, n);
    lemma_jobs_at(w, m, n, i);
    lemma_jobs_at(w, m, n, if n > 1 {
        1
    } else {
        0
    });
    assert forall|k: Key| jobs.contains(k) implies (k.kind == 0 && need_thumb(m, k.path)) || (k.kind == 1
        && need_preview(m, k.path)) || (k.kind == 2 && k.path == w[0] && need_full(m, w[0])) by {
        let j = choose|j: int| 0 <= j < jobs.len() && jobs[j] == k;
        lemma_job_is(w, m, n, j);
    }
}

proof fn lemma_job_is(w: Seq<u64>, m: Map<u64, Slot>, k: nat, j: int)
    requires
        k <= w.len(),
        0 <= j < jobs_of(w, m, k).len(),
    ensures
        ({
            let q = jobs_of(w, m, k)[j];
            (q.kind == 0 && need_thumb(m, q.path)) || (q.kind == 1 && need_preview(m, q.path)) || (q.kind
                == 2 && q.path == w[0] && need_full(m, w[0]))
        }),
    decreases k,
{
    let before = jobs_of(w, m, (k - 1) as nat);
    if j < before.len() {
        lemma_job_is(w, m, (k - 1) as nat, j);
        assert(jobs_of(w, m, k)[j] == before[j]);
    }
}

proof fn lemma_jobs_at(w: Seq<u64>, m: Map<u64, Slot>, n: nat, i: int)
    requires
        0 <= i < n <= w.len(),
        n == w.len(),
    ensures
        ({
            let jobs = jobs_of(w, m, n);
            &&& i <= 2 && need_thumb(m, w[i]) ==> jobs.contains(Key { path: w[i], kind: THUMB })
            &&& need_preview(m, w[i]) ==> jobs.contains(Key { path: w[i], kind: PREVIEW })
            &&& i == (if n > 1 {
                1int
            } else {
                0
            }) && need_full(m, w[0]) ==> jobs.contains(Key { path: w[0], kind: FULL })
        }),
{
    let k = (i + 1) as nat;
    lemma_jobs_grow(w, m, k, n);
    let a = jobs_of(w, m, k);
    let all = jobs_of(w, m, n);
    let before = jobs_of(w, m, i as nat);
    assert forall|q: Key| a.contains(q) implies all.contains(q) by {
        let j = choose|j: int| 0 <= j < a.len() && a[j] == q;
        assert(all.take(a.len() as int)[j] == q);
        assert(all[j] == q);
    }
    let b = before.len() as int;
    let t: int = if i <= 2 && need_thumb(m, w[i]) {
        1
    } else {
        0
    };
    if t == 1 {
        assert(a[b] == (Key { path: w[i], kind: THUMB }));
    }
    if need_preview(m, w[i]) {
        assert(a[b + t] == (Key { path: w[i], kind: PREVIEW }));
    }
    let last: int = if w.len() > 1 {
        1
    } else {
        0
    };
    if i == last && need_full(m, w[0]) {
        assert(a.last() == (Key { path: w[0], kind: FULL }));
        assert(a[a.len() - 1] == a.last());
    }
}

/// Files wanted earlier are asked for earlier: what the first of them ask for comes first, as it is.
pub proof fn law_jobs_in_order(w: Seq<u64>, m: Map<u64, Slot>, j: nat, k: nat)
    requires
        j <= k <= w.len(),
    ensures
        jobs_of(w, m, j).len() <= jobs_of(w, m, k).len(),
        jobs_of(w, m, k).take(jobs_of(w, m, j).len() as int) == jobs_of(w, m, j),
{
    lemma_jobs_grow(w, m, j, k);
}

/// What stays in memory is what is wanted, and of it everything but the full pixels of a neighbour that
/// has a preview; those are let go.
pub proof fn law_what_stays(m: Map<u64, Slot>, w: Seq<u64>, p: u64)
    requires
        w.len() > 0,
    ensures
        ({
            let after = kept(m, w, w[0]);
            &&& after.dom().contains(p) <==> m.dom().contains(p) && w.contains(p)
            &&& after.dom().contains(p) ==> {
                &&& after[p].thumb == m[p].thumb && after[p].preview == m[p].preview && after[p].err
                    == m[p].err && after[p].thumb_tried == m[p].thumb_tried
                &&& p == w[0] || m[p].preview is None ==> after[p].full == m[p].full
                &&& p != w[0] && m[p].preview is Some ==> after[p].full is None
                &&& best_of(m[p]) is Some ==> best_of(after[p]) is Some
            }
        }),
{
}

/// The full pixels that are let go are handed out to be freed.
pub proof fn law_freed(w: Seq<u64>, m: Map<u64, Slot>, i: int, k: nat)
    requires
        0 <= i < k <= w.len(),
        w[i] != w[0],
        m.dom().contains(w[i]),
        m[w[i]].preview is Some,
        m[w[i]].full is Some,
    ensures
        fulls_of(w, m, k).contains(m[w[i]].full->0),
    decreases k,
{
    let before = fulls_of(w, m, (k - 1) as nat);
    let now = fulls_of(w, m, k);
    let f = m[w[i]].full->0;
    let t = w.take(k - 1);
    if i == k - 1 && t.contains(w[i]) {
        let j = choose|j: int| 0 <= j < t.len() && t[j] == w[i];
        law_freed(w, m, j, (k - 1) as nat);
    } else if i < k - 1 {
        law_freed(w, m, i, (k - 1) as nat);
    } else {
        assert(now[now.len() - 1] == f);
    }
    if before.contains(f) {
        let j = choose|j: int| 0 <= j < before.len() && before[j] == f;
        assert(now[j] == f);
    }
}

/// The files wanted are the current one and those around it, by their numbers, in the order they are
/// wanted in; the settings say how many.
pub proof fn law_wanted(nav: Nav, dir: int, cfg: Config, i: int)
    requires
        nav.wf(),
        0 < nav.files@.len() <= usize::MAX,
        dir == 1 || dir == -1,
        0 <= i < nav.files@.len(),
        !cfg.wrap,
    ensures
        ({
            let w = wanted(nav, dir, cfg);
            let c = nav.cur as int;
            let near = if dir == 1 {
                c - cfg.prefetch_behind <= i <= c + cfg.prefetch_ahead
            } else {
                c - cfg.prefetch_ahead <= i <= c + cfg.prefetch_behind
            };
            &&& w.len() > 0 && w[0] == nav.files@[c].path
            &&& near ==> w.contains(nav.files@[i].path)
            &&& cfg.prefetch_ahead >= 1 && 0 <= c + dir < nav.files@.len() ==> w.len() >= 2 && w[1]
                == nav.files@[c + dir].path
            &&& w.len() <= 1 + cfg.prefetch_ahead + cfg.prefetch_behind
        }),
{
    let n = nav.files@.len() as int;
    let c = nav.cur as int;
    let (a, b) = (cfg.prefetch_ahead as nat, cfg.prefetch_behind as nat);
    let k = if a > b {
        a
    } else {
        b
    };
    let o = around(c, n, dir, false, a, b, k);
    let w = wanted(nav, dir, cfg);
    crate::nav::law_wanted_stretch(c, n, dir, a, b, k, i);
    crate::nav::law_each_wanted_once(c, n, dir, false, a, b, k);
    if o.contains(i as usize) {
        let j = choose|j: int| 0 <= j < o.len() && o[j] == i as usize;
        assert(w[j] == nav.files@[i].path);
    }
    if a >= 1 {
        crate::nav::law_next_file_first(c, n, dir, a, b, k);
        assert(w[0] == nav.files@[o[0] as int].path);
    } else {
        lemma_current_first(c, n, dir, a, b, k);
        assert(w[0] == nav.files@[o[0] as int].path);
    }
}

proof fn lemma_current_first(c: int, n: int, dir: int, a: nat, b: nat, k: nat)
    ensures
        around(c, n, dir, false, a, b, k).len() > 0,
        around(c, n, dir, false, a, b, k)[0] == c as usize,
    decreases k,
{
    if k > 0 {
        lemma_current_first(c, n, dir, a, b, (k - 1) as nat);
        crate::nav::lemma_around_grows(c, n, dir, false, a, b, k);
    }
}

proof fn lemma_job_place(w: Seq<u64>, m: Map<u64, Slot>, k: nat, j: int)
    requires
        k <= w.len(),
        0 <= j < jobs_of(w, m, k).len(),
        jobs_of(w, m, k)[j].kind < FULL,
    ensures
        exists|t: int|
            0 <= t < k && #[trigger] w[t] == jobs_of(w, m, k)[j].path && (jobs_of(w, m, k)[j].kind == THUMB
                ==> t <= 2),
    decreases k,
{
    let before = jobs_of(w, m, (k - 1) as nat);
    if j < before.len() {
        lemma_job_place(w, m, (k - 1) as nat, j);
        assert(jobs_of(w, m, k)[j] == before[j]);
    } else {
        assert(w[k - 1] == jobs_of(w, m, k)[j].path);
    }
}

/// A stand-in is asked for of the first three files alone.
pub proof fn law_few_stand_ins(w: Seq<u64>, m: Map<u64, Slot>, p: u64)
    requires
        forall|t: int| 0 <= t <= 2 && t < w.len() ==> #[trigger] w[t] != p,
    ensures
        !jobs_of(w, m, w.len()).contains(Key { path: p, kind: 0 }),
{
    let jobs = jobs_of(w, m, w.len());
    let k = Key { path: p, kind: 0 };
    if jobs.contains(k) {
        let j = choose|j: int| 0 <= j < jobs.len() && jobs[j] == k;
        lemma_job_place(w, m, w.len(), j);
    }
}

proof fn lemma_stand_in_next(w: Seq<u64>, m: Map<u64, Slot>, k: nat, a: int, b: int)
    requires
        0 < k <= w.len(),
        jobs_of(w, m, (k - 1) as nat).len() <= a < jobs_of(w, m, k).len(),
        jobs_of(w, m, (k - 1) as nat).len() <= b < jobs_of(w, m, k).len(),
        jobs_of(w, m, k)[a].kind == THUMB,
        jobs_of(w, m, k)[b].kind == PREVIEW,
    ensures
        a < b,
        jobs_of(w, m, k)[a].path == w[k - 1],
{
}

/// A file's stand-in is asked for before its preview: it is there sooner.
#[verifier::rlimit(60)]
pub proof fn law_stand_in_first(w: Seq<u64>, m: Map<u64, Slot>, k: nat, p: u64, a: int, b: int)
    requires
        w.no_duplicates(),
        k <= w.len(),
        0 <= a < jobs_of(w, m, k).len(),
        0 <= b < jobs_of(w, m, k).len(),
        jobs_of(w, m, k)[a] == (Key { path: p, kind: 0 }),
        jobs_of(w, m, k)[b] == (Key { path: p, kind: 1 }),
    ensures
        a < b,
    decreases k,
{
    let up = (k - 1) as nat;
    let before = jobs_of(w, m, up);
    let all = jobs_of(w, m, k);
    let n = before.len() as int;
    if a < n && b < n {
        assert(all[a] == before[a] && all[b] == before[b]);
        law_stand_in_first(w, m, up, p, a, b);
    } else if b < n {
        assert(all[b] == before[b]);
        assert(all[a].path == w[k - 1]);
        lemma_job_place(w, m, up, b);
        let t = choose|t: int| 0 <= t < up && #[trigger] w[t] == before[b].path;
        assert(w[t] == w[k - 1]);
    } else if a >= n {
        lemma_stand_in_next(w, m, k, a, b);
    }
}

/// What is freed are full pixels, of files that are wanted, have a preview, and are not the current one.
pub proof fn law_freed_only(w: Seq<u64>, m: Map<u64, Slot>, k: nat, j: int)
    requires
        k <= w.len(),
        0 <= j < fulls_of(w, m, k).len(),
    ensures
        exists|i: int|
            0 <= i < k && #[trigger] w[i] != w[0] && m.dom().contains(w[i]) && m[w[i]].preview is Some
                && m[w[i]].full == Some(fulls_of(w, m, k)[j]),
    decreases k,
{
    let before = fulls_of(w, m, (k - 1) as nat);
    if j < before.len() {
        law_freed_only(w, m, (k - 1) as nat, j);
        assert(fulls_of(w, m, k)[j] == before[j]);
    } else {
        assert(w[k - 1] != w[0]);
    }
}

/// Of a file that nothing came of yet there is nothing, not even a failed try.
pub proof fn law_nothing_yet()
    ensures
        best_of(empty_slot()) is None,
        empty_slot().err is None,
        !empty_slot().thumb_tried,
{
}

} // verus!
