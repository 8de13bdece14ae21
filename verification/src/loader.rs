//! What the decoding threads work on. The main thread says, after every move, what it wants and in
//! which order; workers take jobs from the front. A job no longer wanted is dropped before it
//! starts, and a full decode already running stops at its next band.

use crate::list::{holds, Same};
use crate::text::{chars_of, is_word};
use crate::wic::Img;
use vstd::prelude::*;

verus! {

/// Posted to the window when something arrives, so the loop wakes up without polling.
pub const WM_LOADED: u32 = 0x8001;

/// What is asked of a file: a stand-in thumbnail, a screen-sized preview, the full image. Each is
/// its own job, so a thumbnail and a preview of one file run side by side.
pub const THUMB: u8 = 0;

pub const PREVIEW: u8 = 1;

pub const FULL: u8 = 2;

/// A job: a file, by its number, and what is asked of it.
#[derive(Clone, Copy, PartialEq, Eq, Structural)]
pub struct Key {
    pub path: u64,
    pub kind: u8,
}

impl Same for Key {
    fn same(&self, other: &Key) -> (r: bool) {
        *self == *other
    }
}

/// A file of a folder: its number, and its name (empty for a path that ends in none).
pub struct File {
    pub path: u64,
    pub name: String,
}

pub enum Msg {
    Decoded { path: u64, kind: u8, img: Result<Img, String> },
    /// A folder listed: its images, and the listing's generation (older ones are ignored).
    Listed { generation: u64, files: Vec<File> },
}

/// The error of a decode that nobody wanted any more.
pub const CANCELLED: &'static str = "cancelled";

/// The error where the system gives no codecs.
pub const NO_CODECS: &'static str = "WIC is not available";

/// What a job asks for.
pub enum Work {
    /// A stand-in.
    Thumbnail,
    /// A decode, for a screen or in full, within the GPU's limit.
    Decode { target: Option<(u32, u32)>, max_dim: u32 },
    /// It fails at once.
    Fail(String),
}

/// A job taken: the screen to decode for, where it is a preview, and the GPU's limit.
#[derive(Clone, Copy)]
pub struct Task {
    pub key: Key,
    pub target: Option<(u32, u32)>,
    pub max_dim: u32,
}

impl Task {
    /// What the job asks for, of the codecs where there are any.
    pub fn work(&self, codecs: bool) -> (r: Work)
        ensures
            !codecs ==> r is Fail && r->Fail_0@ == NO_CODECS@,
            codecs && self.key.kind == THUMB ==> r == Work::Thumbnail,
            codecs && self.key.kind != THUMB ==> r == (Work::Decode {
                target: self.target,
                max_dim: self.max_dim,
            }),
    {
        if !codecs {
            Work::Fail(NO_CODECS.to_owned())
        } else if self.key.kind == THUMB {
            Work::Thumbnail
        } else {
            Work::Decode { target: self.target, max_dim: self.max_dim }
        }
    }
}

/// The plan that the threads share.
pub struct Loader {
    pub queue: Vec<Key>,
    pub wanted: Vec<Key>,
    pub running: Vec<Key>,
    pub hwnd: isize,
    /// Screen size for previews.
    pub target: (u32, u32),
    pub max_dim: u32,
}

/// The jobs that are not running, in their order.
pub open spec fn idle(jobs: Seq<Key>, running: Seq<Key>) -> Seq<Key>
    decreases jobs.len(),
{
    if jobs.len() == 0 {
        seq![]
    } else if running.contains(jobs.last()) {
        idle(jobs.drop_last(), running)
    } else {
        idle(jobs.drop_last(), running).push(jobs.last())
    }
}

proof fn lemma_idle(jobs: Seq<Key>, running: Seq<Key>)
    ensures
        forall|k: Key| #[trigger]
            idle(jobs, running).contains(k) <==> jobs.contains(k) && !running.contains(k),
    decreases jobs.len(),
{
    if jobs.len() > 0 {
        let short = jobs.drop_last();
        let last = jobs.last();
        lemma_idle(short, running);
        assert forall|k: Key| #[trigger] idle(jobs, running).contains(k) <==> jobs.contains(k)
            && !running.contains(k) by {
            let was = idle(short, running);
            let now = idle(jobs, running);
            if jobs.contains(k) && !running.contains(k) {
                if k == last {
                    assert(now.last() == k);
                } else {
                    let i = choose|i: int| 0 <= i < jobs.len() && jobs[i] == k;
                    assert(short[i] == k);
                    assert(short.contains(k));
                    assert(was.contains(k));
                    let j = choose|j: int| 0 <= j < was.len() && was[j] == k;
                    assert(now[j] == k);
                }
            }
            if now.contains(k) {
                let j = choose|j: int| 0 <= j < now.len() && now[j] == k;
                if j < was.len() {
                    assert(was[j] == k);
                    assert(was.contains(k));
                    assert(short.contains(k));
                    let i = choose|i: int| 0 <= i < short.len() && short[i] == k;
                    assert(jobs[i] == k);
                } else {
                    assert(k == last);
                    assert(jobs[jobs.len() - 1] == k);
                }
            }
        }
    }
}

/// How many threads decode. Each decoder is single-threaded, so parallelism comes from decoding
/// several files at once; one core is left to the UI thread.
pub fn workers(cores: Option<usize>) -> (n: usize)
    ensures
        n == ({
            let c = match cores {
                Some(c) => c as int,
                None => 4,
            };
            if c - 1 < 2 {
                2
            } else if c - 1 > 6 {
                6
            } else {
                c - 1
            }
        }),
{
    let c: usize = match cores {
        Some(c) => c,
        None => 4,
    };
    if c < 3 {
        2
    } else if c > 7 {
        6
    } else {
        c - 1
    }
}

impl Loader {
    /// No job is counted as running twice.
    pub open spec fn wf(self) -> bool {
        self.running@.no_duplicates()
    }

    /// What a worker that took a job is to do: nothing where the job is no longer wanted.
    pub open spec fn task(self, key: Key) -> Option<Task> {
        if self.wanted@.contains(key) {
            Some(
                Task {
                    key,
                    target: if key.kind == PREVIEW {
                        Some(self.target)
                    } else {
                        None
                    },
                    max_dim: self.max_dim,
                },
            )
        } else {
            None
        }
    }

    /// The plan is these jobs: what runs already is not queued again.
    pub open spec fn planned(self, jobs: Seq<Key>) -> bool {
        self.queue@ == idle(jobs, self.running@) && self.wanted@ == jobs
    }

    pub fn start(target: (u32, u32)) -> (r: Loader)
        ensures
            r.wf(),
            r.queue@ == Seq::<Key>::empty(),
            r.wanted@ == Seq::<Key>::empty(),
            r.running@ == Seq::<Key>::empty(),
            r.hwnd == 0,
            r.target == target,
            r.max_dim == 16384,
    {
        Loader {
            queue: Vec::new(),
            wanted: Vec::new(),
            running: Vec::new(),
            hwnd: 0,
            target,
            max_dim: 16384,
        }
    }

    pub fn set_hwnd(&mut self, hwnd: isize)
        ensures
            *final(self) == (Loader { hwnd, ..*old(self) }),
    {
        self.hwnd = hwnd;
    }

    pub fn set_max_dim(&mut self, d: u32)
        ensures
            *final(self) == (Loader { max_dim: d, ..*old(self) }),
    {
        self.max_dim = d;
    }

    pub fn set_target(&mut self, w: u32, h: u32)
        ensures
            *final(self) == (Loader { target: (w, h), ..*old(self) }),
    {
        self.target = (w, h);
    }

    /// Replace the plan: `jobs` in priority order. Everything not in it is no longer wanted: queued
    /// jobs vanish, running full decodes stop.
    pub fn plan(&mut self, jobs: Vec<Key>)
        ensures
            final(self).planned(jobs@),
            final(self).running == old(self).running,
            final(self).hwnd == old(self).hwnd,
            final(self).target == old(self).target,
            final(self).max_dim == old(self).max_dim,
            forall|k: Key| #[trigger]
                final(self).queue@.contains(k) <==> jobs@.contains(k) && !old(
                    self,
                ).running@.contains(k),
    {
        let mut q: Vec<Key> = Vec::new();
        let n: usize = jobs.len();
        for i in 0..n
            invariant
                n == jobs@.len(),
                *self == *old(self),
                q@ == idle(jobs@.take(i as int), self.running@),
        {
            assert(jobs@.take(i + 1).drop_last() =~= jobs@.take(i as int));
            if !holds(&self.running, jobs[i]) {
                q.push(jobs[i]);
            }
        }
        assert(jobs@.take(n as int) =~= jobs@);
        proof {
            lemma_idle(jobs@, self.running@);
        }
        self.queue = q;
        self.wanted = jobs;
    }

    /// The next job, off the front of the queue.
    pub fn take(&mut self) -> (k: Option<Key>)
        ensures
            old(self).queue@.len() == 0 ==> k is None && *final(self) == *old(self),
            old(self).queue@.len() > 0 ==> k == Some(old(self).queue@[0]) && final(self).queue@
                == old(self).queue@.skip(1),
            final(self).wanted == old(self).wanted,
            final(self).running == old(self).running,
            final(self).hwnd == old(self).hwnd,
            final(self).target == old(self).target,
            final(self).max_dim == old(self).max_dim,
    {
        if self.queue.len() == 0 {
            None
        } else {
            let k = self.queue.remove(0);
            assert(self.queue@ =~= old(self).queue@.skip(1));
            Some(k)
        }
    }

    /// Start a job that was taken, unless it is no longer wanted.
    pub fn worker(&mut self, key: Key) -> (t: Option<Task>)
        requires
            old(self).wf(),
        ensures
            final(self).wf(),
            t == old(self).task(key),
            t is None ==> *final(self) == *old(self),
            t is Some ==> final(self).running@.to_set() == old(self).running@.to_set().insert(key),
            final(self).queue == old(self).queue,
            final(self).wanted == old(self).wanted,
            final(self).hwnd == old(self).hwnd,
            final(self).target == old(self).target,
            final(self).max_dim == old(self).max_dim,
    {
        if !holds(&self.wanted, key) {
            return None;
        }
        if !holds(&self.running, key) {
            self.running.push(key);
            proof {
                let was = old(self).running@;
                let now = self.running@;
                assert forall|k: Key| now.to_set().contains(k) <==> was.to_set().insert(
                    key,
                ).contains(k) by {
                    if was.contains(k) {
                        let i = choose|i: int| 0 <= i < was.len() && was[i] == k;
                        assert(now[i] == k);
                    }
                    if k == key {
                        assert(now[was.len() as int] == k);
                    }
                    if now.contains(k) {
                        let i = choose|i: int| 0 <= i < now.len() && now[i] == k;
                        if i < was.len() {
                            assert(was[i] == k);
                        }
                    }
                }
                assert(now.to_set() =~= was.to_set().insert(key));
            }
        } else {
            assert(self.running@.to_set() =~= old(self).running@.to_set().insert(key));
        }
        Some(
            Task {
                key,
                target: if key.kind == PREVIEW {
                    Some(self.target)
                } else {
                    None
                },
                max_dim: self.max_dim,
            },
        )
    }

    /// Asked between bands: false stops the decode.
    pub fn still(&self, key: Key) -> (r: bool)
        ensures
            r == self.wanted@.contains(key),
    {
        holds(&self.wanted, key)
    }

    /// A job is over, with a picture or an error: what to send of it. A cancelled one ends in
    /// silence.
    pub fn finish(&mut self, key: Key, img: Result<Img, String>) -> (send: Option<Msg>)
        requires
            old(self).wf(),
        ensures
            final(self).wf(),
            send == (if img is Err && img->Err_0@ == CANCELLED@ {
                None
            } else {
                Some(Msg::Decoded { path: key.path, kind: key.kind, img })
            }),
            final(self).running@.to_set() == old(self).running@.to_set().remove(key),
            final(self).queue == old(self).queue,
            final(self).wanted == old(self).wanted,
            final(self).hwnd == old(self).hwnd,
            final(self).target == old(self).target,
            final(self).max_dim == old(self).max_dim,
    {
        let n: usize = self.running.len();
        let mut at: usize = n;
        for i in 0..n
            invariant
                n == self.running@.len(),
                *self == *old(self),
                at == n || (at < n && self.running@[at as int] == key),
                at == n ==> forall|j: int| 0 <= j < i ==> #[trigger] self.running@[j] != key,
        {
            if self.running[i] == key {
                at = i;
            }
        }
        let ghost was = self.running@;
        if at < n {
            self.running.swap_remove(at);
        }
        proof {
            let now = self.running@;
            assert forall|k: Key| now.to_set().contains(k) <==> was.to_set().remove(key).contains(
                k,
            ) by {
                if at < n {
                    if now.contains(k) {
                        let i = choose|i: int| 0 <= i < now.len() && now[i] == k;
                        if i == at {
                            assert(was[n - 1] == k);
                        } else {
                            assert(was[i] == k);
                        }
                    }
                    if was.contains(k) && k != key {
                        let i = choose|i: int| 0 <= i < was.len() && was[i] == k;
                        if i == n - 1 {
                            assert(now[at as int] == k);
                        } else {
                            assert(now[i] == k);
                        }
                    }
                }
            }
            assert(now.to_set() =~= was.to_set().remove(key));
        }
        let silent: bool = match &img {
            Err(e) => is_word(chars_of(e.as_str()).as_slice(), CANCELLED),
            Ok(_) => false,
        };
        if silent {
            None
        } else {
            Some(Msg::Decoded { path: key.path, kind: key.kind, img })
        }
    }

    /// The window to wake. Before there is one nobody is woken: the main thread reads the channel
    /// once it has a window anyway.
    pub fn wake(&self) -> (r: Option<isize>)
        ensures
            r == (if self.hwnd != 0 {
                Some(self.hwnd)
            } else {
                None
            }),
    {
        if self.hwnd != 0 {
            Some(self.hwnd)
        } else {
            None
        }
    }
}

/// What is not in the plan is not started, and stops where it runs; what runs is not started a second time.
pub proof fn law_only_the_plan(l: Loader, jobs: Seq<Key>, k: Key)
    requires
        l.planned(jobs),
    ensures
        !jobs.contains(k) ==> l.task(k) is None && !l.queue@.contains(k) && !l.wanted@.contains(k),
        l.running@.contains(k) ==> !l.queue@.contains(k),
        jobs.contains(k) && !l.running@.contains(k) ==> l.queue@.contains(k) && l.task(k) is Some,
{
    lemma_idle(jobs, l.running@);
}

/// The jobs that are queued keep their order: those of two plans in a row are those of the one, and then
/// those of the other.
pub proof fn law_queue_keeps_order(a: Seq<Key>, b: Seq<Key>, running: Seq<Key>, k: Key)
    ensures
        idle(a + b, running) == idle(a, running) + idle(b, running),
        idle(seq![k], running) == (if running.contains(k) {
            seq![]
        } else {
            seq![k]
        }),
    decreases b.len(),
{
    reveal_with_fuel(idle, 2);
    assert(seq![k].drop_last() =~= seq![]);
    if running.contains(k) {
    } else {
        assert(idle(seq![k], running) =~= seq![k]);
    }
    if b.len() == 0 {
        assert(a + b =~= a);
        assert(idle(a, running) + idle(b, running) =~= idle(a, running));
    } else {
        law_queue_keeps_order(a, b.drop_last(), running, k);
        assert((a + b).drop_last() =~= a + b.drop_last());
        assert(idle(a + b, running) =~= idle(a, running) + idle(b, running));
    }
}

/// A job that is wanted is for itself, within the GPU's limit; a preview is for the screen, anything else
/// is for no screen. One that is not wanted is not done.
pub proof fn law_task(l: Loader, key: Key)
    ensures
        l.task(key) is Some <==> l.wanted@.contains(key),
        l.task(key) matches Some(t) ==> {
            &&& t.key == key
            &&& t.max_dim == l.max_dim
            &&& key.kind == 1 ==> t.target == Some(l.target)
            &&& key.kind != 1 ==> t.target is None
        },
{
}

} // verus!
