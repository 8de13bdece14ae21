//! The choices made on the way to a frame: which device, which format and memory, how large a chain of
//! images, and what becomes of a frame when the window changes under it.

use crate::text::{cat2, cat3};
use ash::vk;
use vstd::prelude::*;

verus! {

/// Version 1.0 of the Vulkan API, and the 1.3 that the viewer is drawn with.
pub const API_1_0: u32 = 0x0040_0000;

pub const API_1_3: u32 = 0x0040_3000;

/// `vk::QueueFlags::GRAPHICS`.
pub const QUEUE_GRAPHICS: u32 = 1;

/// `vk::PhysicalDeviceType`: the two kinds that matter.
pub const INTEGRATED_GPU: i32 = 1;

pub const DISCRETE_GPU: i32 = 2;

/// `vk::Format::B8G8R8A8_UNORM`.
pub const BGRA_UNORM: i32 = 44;

/// `vk::ColorSpaceKHR::SRGB_NONLINEAR`.
pub const SRGB_NONLINEAR: i32 = 0;

/// `vk::PresentModeKHR::MAILBOX` and `FIFO`.
pub const MAILBOX: i32 = 1;

pub const FIFO: i32 = 2;

/// `vk::MemoryPropertyFlags::DEVICE_LOCAL`.
pub const DEVICE_LOCAL: u32 = 1;

/// `vk::MemoryPropertyFlags::HOST_VISIBLE | HOST_COHERENT`.
pub const HOST_MEMORY: u32 = 6;

/// `vk::QueueFlags::contains`: every bit of the second is set in the first.
#[verifier::external_body]
fn queue_can(flags: u32, want: u32) -> (r: bool)
    ensures
        r == (flags & want == want),
{
    vk::QueueFlags::from_raw(flags).contains(vk::QueueFlags::from_raw(want))
}

/// `vk::MemoryPropertyFlags::contains`: every bit of the second is set in the first.
#[verifier::external_body]
fn memory_has(flags: u32, want: u32) -> (r: bool)
    ensures
        r == (flags & want == want),
{
    vk::MemoryPropertyFlags::from_raw(flags).contains(vk::MemoryPropertyFlags::from_raw(want))
}

/// `vk::MemoryPropertyFlags::intersects`: some bit is set in both.
#[verifier::external_body]
fn memory_meets(flags: u32, avoid: u32) -> (r: bool)
    ensures
        r == (flags & avoid != 0),
{
    vk::MemoryPropertyFlags::from_raw(flags).intersects(vk::MemoryPropertyFlags::from_raw(avoid))
}

/// What a failed Vulkan call is reported as.
pub fn vkerr(what: &str, e: &str) -> (r: String)
    ensures
        r@ == what@ + ": "@ + e@,
{
    cat3(what, ": ", e)
}

/// Whether the loader is new enough; one that cannot say is of version 1.0.
pub fn check_version(version: Option<u32>) -> (r: Result<(), String>)
    ensures
        r is Ok == (version is Some && version->0 >= API_1_3),
        r is Ok <==> version is Some && version->0 >= 0x40_3000,
        r is Err ==> r->Err_0@ == "Vulkan 1.3 is required (update the GPU driver)"@,
{
    let v: u32 = match version {
        Some(v) => v,
        None => API_1_0,
    };
    if v < API_1_3 {
        Err("Vulkan 1.3 is required (update the GPU driver)".to_owned())
    } else {
        Ok(())
    }
}

/// A queue family: its flags, and whether it can show in the window.
#[derive(Clone, Copy, PartialEq, Eq, Structural, Debug)]
pub struct Family {
    pub flags: u32,
    pub shows: bool,
}

/// A device: its API version, its kind and its queue families.
pub struct Device {
    pub api: u32,
    pub kind: i32,
    pub families: Vec<Family>,
}

/// The family can draw, and show what it drew.
pub open spec fn serves(f: Family) -> bool {
    f.flags & QUEUE_GRAPHICS == QUEUE_GRAPHICS && f.shows
}

/// The first family that serves.
pub open spec fn first_family(f: Seq<Family>, q: int) -> bool {
    &&& 0 <= q < f.len()
    &&& serves(f[q])
    &&& forall|i: int| 0 <= i < q ==> !serves(#[trigger] f[i])
}

pub open spec fn has_family(f: Seq<Family>) -> bool {
    exists|i: int| 0 <= i < f.len() && serves(#[trigger] f[i])
}

/// The device is 1.3 and can show in the window.
pub open spec fn usable(d: Device) -> bool {
    d.api >= API_1_3 && has_family(d.families@)
}

/// How welcome a device is: the preferred kind first, then the other one of the two.
pub open spec fn score(kind: i32, prefer_integrated: bool) -> int {
    if kind == DISCRETE_GPU {
        if prefer_integrated {
            2
        } else {
            3
        }
    } else if kind == INTEGRATED_GPU {
        if prefer_integrated {
            3
        } else {
            2
        }
    } else {
        1
    }
}

/// The most welcome of the usable devices, and of those the first.
pub open spec fn best_device(d: Seq<Device>, prefer_integrated: bool, k: int) -> bool {
    &&& 0 <= k < d.len()
    &&& usable(d[k])
    &&& forall|i: int|
        0 <= i < d.len() && usable(#[trigger] d[i]) ==> score(d[i].kind, prefer_integrated) <= score(
            d[k].kind,
            prefer_integrated,
        )
    &&& forall|i: int|
        0 <= i < k && usable(#[trigger] d[i]) ==> score(d[i].kind, prefer_integrated) < score(
            d[k].kind,
            prefer_integrated,
        )
}

fn find_family(f: &Vec<Family>) -> (r: Option<u32>)
    requires
        f@.len() <= u32::MAX,
    ensures
        r is Some == has_family(f@),
        r is Some ==> first_family(f@, r->0 as int),
{
    for i in 0..f.len()
        invariant
            f@.len() <= u32::MAX,
            forall|j: int| 0 <= j < i ==> !serves(#[trigger] f@[j]),
    {
        if queue_can(f[i].flags, QUEUE_GRAPHICS) && f[i].shows {
            assert(serves(f@[i as int]));
            return Some(i as u32);
        }
    }
    None
}

fn score_of(kind: i32, prefer_integrated: bool) -> (r: i32)
    ensures
        r == score(kind, prefer_integrated),
        r > 0,
{
    if kind == DISCRETE_GPU {
        if prefer_integrated {
            2
        } else {
            3
        }
    } else if kind == INTEGRATED_GPU {
        if prefer_integrated {
            3
        } else {
            2
        }
    } else {
        1
    }
}

/// A device that is 1.3 and can show in this window, the preferred kind first, with its queue family.
pub fn choose_device(devices: &Vec<Device>, prefer_integrated: bool) -> (r: Result<
    (usize, u32),
    String,
>)
    requires
        forall|i: int| 0 <= i < devices@.len() ==> #[trigger] devices@[i].families@.len() <= u32::MAX,
    ensures
        r is Ok == exists|i: int| 0 <= i < devices@.len() && usable(#[trigger] devices@[i]),
        r is Ok ==> best_device(devices@, prefer_integrated, (r->Ok_0).0 as int) && first_family(
            devices@[(r->Ok_0).0 as int].families@,
            (r->Ok_0).1 as int,
        ),
        r is Err ==> r->Err_0@ == "no Vulkan 1.3 GPU can show in this window"@,
{
    let mut best: Option<(usize, u32)> = None;
    let mut top: i32 = 0;
    for i in 0..devices.len()
        invariant
            forall|i: int|
                0 <= i < devices@.len() ==> #[trigger] devices@[i].families@.len() <= u32::MAX,
            best is None ==> top == 0,
            best is None ==> forall|j: int| 0 <= j < i ==> !usable(#[trigger] devices@[j]),
            best is Some ==> {
                let k = (best->0).0 as int;
                &&& 0 <= k < i
                &&& usable(devices@[k])
                &&& first_family(devices@[k].families@, (best->0).1 as int)
                &&& top == score(devices@[k].kind, prefer_integrated)
                &&& forall|j: int|
                    0 <= j < i && usable(#[trigger] devices@[j]) ==> score(
                        devices@[j].kind,
                        prefer_integrated,
                    ) <= top
                &&& forall|j: int|
                    0 <= j < k && usable(#[trigger] devices@[j]) ==> score(
                        devices@[j].kind,
                        prefer_integrated,
                    ) < top
            },
    {
        if devices[i].api >= API_1_3 {
            let q = find_family(&devices[i].families);
            if q.is_some() {
                let s: i32 = score_of(devices[i].kind, prefer_integrated);
                if best.is_none() || s > top {
                    best = Some((i, q.unwrap()));
                    top = s;
                }
            }
        }
    }
    match best {
        Some(b) => {
            assert(usable(devices@[b.0 as int]));
            Ok(b)
        },
        None => Err("no Vulkan 1.3 GPU can show in this window".to_owned()),
    }
}

/// The surface format, from pairs of format and colour space. Plain UNORM, no sRGB: the file's bytes go
/// to the screen as they are.
pub fn choose_format(formats: &Vec<(i32, i32)>) -> (r: i32)
    requires
        formats@.len() > 0,
    ensures
        r == (if formats@.contains((BGRA_UNORM, SRGB_NONLINEAR)) {
            BGRA_UNORM
        } else {
            formats@[0].0
        }),
        formats@.contains((44i32, 0i32)) ==> r == 44,
{
    for i in 0..formats.len()
        invariant
            forall|j: int| 0 <= j < i ==> formats@[j] != (BGRA_UNORM, SRGB_NONLINEAR),
    {
        let (f, s): (i32, i32) = formats[i];
        if f == BGRA_UNORM && s == SRGB_NONLINEAR {
            assert(formats@[i as int] == (BGRA_UNORM, SRGB_NONLINEAR));
            return f;
        }
    }
    formats[0].0
}

/// MAILBOX where there is one: no tearing, and a pan follows the hand without a queue of frames behind
/// it.
pub fn choose_mode(modes: &Vec<i32>) -> (r: i32)
    ensures
        r == (if modes@.contains(MAILBOX) {
            MAILBOX
        } else {
            FIFO
        }),
        r == 1 || r == 2,
        r == 1 <==> modes@.contains(1i32),
{
    for i in 0..modes.len()
        invariant
            forall|j: int| 0 <= j < i ==> modes@[j] != MAILBOX,
    {
        if modes[i] == MAILBOX {
            assert(modes@[i as int] == MAILBOX);
            return MAILBOX;
        }
    }
    FIFO
}

/// The memory type is allowed, has what is wanted and nothing of what is to be avoided.
pub open spec fn suits(types: Seq<u32>, i: int, bits: u32, want: u32, avoid: u32) -> bool {
    &&& bits & (1u32 << (i as u32)) != 0
    &&& types[i] & want == want
    &&& types[i] & avoid == 0
}

pub open spec fn first_type(types: Seq<u32>, bits: u32, want: u32, avoid: u32, i: int) -> bool {
    &&& 0 <= i < types.len()
    &&& suits(types, i, bits, want, avoid)
    &&& forall|j: int| 0 <= j < i ==> !#[trigger] suits(types, j, bits, want, avoid)
}

pub open spec fn no_type(types: Seq<u32>, bits: u32, want: u32, avoid: u32) -> bool {
    forall|j: int| 0 <= j < types.len() ==> !#[trigger] suits(types, j, bits, want, avoid)
}

fn find_type(types: &Vec<u32>, bits: u32, want: u32, avoid: u32) -> (r: Option<u32>)
    requires
        types@.len() <= 32,
    ensures
        r is None == no_type(types@, bits, want, avoid),
        r is Some ==> first_type(types@, bits, want, avoid, r->0 as int),
{
    for i in 0..types.len()
        invariant
            types@.len() <= 32,
            forall|j: int| 0 <= j < i ==> !#[trigger] suits(types@, j, bits, want, avoid),
    {
        let f: u32 = types[i];
        if bits & (1u32 << (i as u32)) != 0 && memory_has(f, want) && !memory_meets(f, avoid) {
            assert(suits(types@, i as int, bits, want, avoid));
            return Some(i as u32);
        }
    }
    None
}

/// The memory type to allocate from, by the properties of the types: the first one allowed that has
/// what is wanted and nothing to be avoided, else the first that has what is wanted.
pub fn memory_type(types: &Vec<u32>, bits: u32, want: u32, avoid: u32) -> (r: Option<u32>)
    requires
        types@.len() <= 32,
    ensures
        !no_type(types@, bits, want, avoid) ==> r is Some && first_type(
            types@,
            bits,
            want,
            avoid,
            r->0 as int,
        ),
        no_type(types@, bits, want, avoid) ==> {
            &&& r is None == no_type(types@, bits, want, 0)
            &&& r is Some ==> first_type(types@, bits, want, 0, r->0 as int)
        },
{
    match find_type(types, bits, want, avoid) {
        Some(i) => Some(i),
        None => find_type(types, bits, want, 0),
    }
}

#[derive(Clone, Copy, PartialEq, Eq, Structural, Debug)]
pub struct Extent {
    pub w: u32,
    pub h: u32,
}

impl Extent {
    /// There is nothing to draw into: the window is minimised.
    pub open spec fn empty(self) -> bool {
        self.w == 0 || self.h == 0
    }

    pub fn is_empty(&self) -> (r: bool)
        ensures
            r == self.empty(),
    {
        self.w == 0 || self.h == 0
    }
}

/// What a surface can do.
#[derive(Clone, Copy, PartialEq, Eq, Structural, Debug)]
pub struct Caps {
    /// The size it has; a width of all ones where the window takes the images' size.
    pub current: Extent,
    pub min: Extent,
    pub max: Extent,
    pub min_images: u32,
    /// None at all: no limit.
    pub max_images: u32,
}

pub open spec fn clamped(v: u32, lo: u32, hi: u32) -> u32 {
    if v < lo {
        lo
    } else if v > hi {
        hi
    } else {
        v
    }
}

fn clamp(v: u32, lo: u32, hi: u32) -> (r: u32)
    ensures
        r == clamped(v, lo, hi),
{
    if v < lo {
        lo
    } else if v > hi {
        hi
    } else {
        v
    }
}

/// The size of the images: the surface's own, else the wanted one as far as it is allowed.
pub open spec fn extent_for(caps: Caps, wanted: Extent) -> Extent {
    if caps.current.w != u32::MAX {
        caps.current
    } else {
        Extent {
            w: clamped(wanted.w, caps.min.w, caps.max.w),
            h: clamped(wanted.h, caps.min.h, caps.max.h),
        }
    }
}

/// How many images: one more than the least, where that is allowed.
pub open spec fn images_for(caps: Caps) -> int {
    if 0 < caps.max_images < caps.min_images + 1 {
        caps.max_images as int
    } else {
        caps.min_images + 1
    }
}

/// What a call into the swapchain gave.
pub enum Came<T> {
    Fine(T),
    /// The window changed under it.
    OutOfDate,
    Failed(String),
}

/// What comes next on the way to a frame.
pub enum Step {
    /// The images are to be made anew.
    Rebuild,
    /// The next image is to be acquired.
    Acquire,
    /// The frame is to be recorded, submitted and presented, in this image.
    Record(u32),
    /// The frame is out (or there was nothing to draw into), or failed.
    Done(Result<bool, String>),
}

/// A frame on its way. An out-of-date swapchain is rebuilt and the frame tried once more: nothing else
/// would ask for it until the next event.
#[derive(Clone, Copy, PartialEq, Eq, Structural, Debug)]
pub struct Drawing {
    /// This is the second try.
    pub second: bool,
    /// The images are made anew because the image could not be acquired.
    pub lost: bool,
}

/// The swapchain: the size of its images, the size asked for, and whether it is to be made anew.
#[derive(Clone, Copy, PartialEq, Eq, Structural, Debug)]
pub struct Chain {
    pub extent: Extent,
    pub wanted: Extent,
    pub want_rebuild: bool,
}

/// What follows once the images need no making anew.
pub open spec fn ready(c: Chain) -> Step {
    if c.extent.empty() {
        Step::Done(Ok(false))
    } else {
        Step::Acquire
    }
}

/// What starts a try.
pub open spec fn tried(c: Chain) -> Step {
    if c.want_rebuild {
        Step::Rebuild
    } else {
        ready(c)
    }
}

/// A try that drew nothing: the first one is followed by another, which needs no making anew where
/// `c` has just been made.
pub open spec fn after_nothing(c: Chain, second: bool) -> Step {
    if second {
        Step::Done(Ok(false))
    } else {
        tried(c)
    }
}

impl Chain {
    pub fn new(wanted: Extent) -> (r: Chain)
        ensures
            r == (Chain { extent: Extent { w: 0, h: 0 }, wanted, want_rebuild: false }),
    {
        Chain { extent: Extent { w: 0, h: 0 }, wanted, want_rebuild: false }
    }

    pub fn resize(&mut self, w: u32, h: u32)
        ensures
            *final(self) == (Chain {
                wanted: Extent { w, h },
                want_rebuild: true,
                ..*old(self)
            }),
    {
        self.wanted = Extent { w, h };
        self.want_rebuild = true;
    }

    /// The window reports a size. A hidden window shown again reports the size it already had:
    /// nothing is made anew for that.
    pub fn resized(&mut self, w: u32, h: u32) -> (changed: bool)
        ensures
            changed == (old(self).extent != (Extent { w, h })),
            *final(self) == (if changed {
                Chain { wanted: Extent { w, h }, want_rebuild: true, ..*old(self) }
            } else {
                *old(self)
            }),
    {
        if self.extent.w != w || self.extent.h != h {
            self.resize(w, h);
            true
        } else {
            false
        }
    }

    /// Making the images anew starts, before anything is asked of the surface: it was asked for once,
    /// whatever comes of it.
    pub fn start_rebuild(&mut self)
        ensures
            *final(self) == (Chain { want_rebuild: false, ..*old(self) }),
    {
        self.want_rebuild = false;
    }

    /// Make the images anew: how many, of the size that is kept here. None where there is nothing to
    /// draw into.
    pub fn rebuild(&mut self, caps: Caps) -> (r: Option<u32>)
        requires
            caps.min.w <= caps.max.w && caps.min.h <= caps.max.h,
            caps.min_images < u32::MAX,
        ensures
            *final(self) == (Chain {
                extent: extent_for(caps, old(self).wanted),
                want_rebuild: false,
                ..*old(self)
            }),
            r is None == final(self).extent.empty(),
            r is Some ==> r->0 == images_for(caps),
    {
        self.want_rebuild = false;
        let extent = if caps.current.w != u32::MAX {
            caps.current
        } else {
            Extent {
                w: clamp(self.wanted.w, caps.min.w, caps.max.w),
                h: clamp(self.wanted.h, caps.min.h, caps.max.h),
            }
        };
        self.extent = extent;
        if extent.is_empty() {
            return None;
        }
        let count: u32 = caps.min_images + 1;
        if caps.max_images > 0 && caps.max_images < count {
            Some(caps.max_images)
        } else {
            Some(count)
        }
    }

    fn go_on(&self) -> (r: Step)
        ensures
            r == ready(*self),
    {
        if self.extent.is_empty() {
            Step::Done(Ok(false))
        } else {
            Step::Acquire
        }
    }

    fn start(&self) -> (r: Step)
        ensures
            r == tried(*self),
    {
        if self.want_rebuild {
            Step::Rebuild
        } else {
            self.go_on()
        }
    }

    /// Start a frame. With nothing to draw into, trying once more changes nothing: the caller asks
    /// again on the next change.
    pub fn draw(&self) -> (r: (Drawing, Step))
        ensures
            r.0 == (Drawing { second: false, lost: false }),
            r.1 == tried(*self),
    {
        (Drawing { second: false, lost: false }, self.start())
    }

    /// The images were made anew, by `rebuild`, or could not be.
    pub fn rebuilt(&self, d: Drawing, out: Result<(), String>) -> (r: (Drawing, Step))
        ensures
            out is Err ==> r == (d, Step::Done(Err(out->Err_0))),
            out is Ok && d.lost ==> r == (
                Drawing { second: true, lost: false },
                after_nothing(*self, d.second),
            ),
            out is Ok && !d.lost ==> r == (d, ready(*self)),
    {
        match out {
            Err(e) => (d, Step::Done(Err(e))),
            Ok(_) => if d.lost {
                let step = if d.second {
                    Step::Done(Ok(false))
                } else {
                    self.start()
                };
                (Drawing { second: true, lost: false }, step)
            } else {
                (d, self.go_on())
            },
        }
    }

    /// The next image was acquired (its number, and whether it fits the window badly), or not.
    pub fn acquired(&mut self, d: Drawing, came: Came<(u32, bool)>) -> (r: (Drawing, Step))
        ensures
            match came {
                Came::Fine((i, bad)) => r == (d, Step::Record(i)) && *final(self) == (Chain {
                    want_rebuild: old(self).want_rebuild || bad,
                    ..*old(self)
                }),
                Came::OutOfDate => r == (Drawing { lost: true, ..d }, Step::Rebuild) && *final(self)
                    == *old(self),
                Came::Failed(e) => {
                    &&& r.0 == d
                    &&& r.1 is Done
                    &&& r.1->Done_0 is Err
                    &&& (r.1->Done_0)->Err_0@ == "acquire: "@ + e@
                    &&& *final(self) == *old(self)
                },
            },
    {
        match came {
            Came::Fine((i, bad)) => {
                self.want_rebuild = self.want_rebuild || bad;
                (d, Step::Record(i))
            },
            Came::OutOfDate => (Drawing { lost: true, ..d }, Step::Rebuild),
            Came::Failed(e) => (d, Step::Done(Err(cat2("acquire: ", e.as_str())))),
        }
    }

    /// The frame was presented, or not. Out of date, it counts as out: the next one is drawn into new
    /// images.
    pub fn presented(&mut self, came: Came<bool>) -> (r: Result<bool, String>)
        ensures
            match came {
                Came::Fine(bad) => r == Ok::<bool, String>(true) && *final(self) == (Chain {
                    want_rebuild: old(self).want_rebuild || bad,
                    ..*old(self)
                }),
                Came::OutOfDate => r == Ok::<bool, String>(true) && *final(self) == (Chain {
                    want_rebuild: true,
                    ..*old(self)
                }),
                Came::Failed(e) => r is Err && r->Err_0@ == "present: "@ + e@ && *final(self) == *old(
                    self,
                ),
            },
    {
        match came {
            Came::Fine(bad) => {
                self.want_rebuild = self.want_rebuild || bad;
                Ok(true)
            },
            Came::OutOfDate => {
                self.want_rebuild = true;
                Ok(true)
            },
            Came::Failed(e) => Err(cat2("present: ", e.as_str())),
        }
    }
}

/// The kind of device that is preferred is the most welcome, the other of the two comes next, and both
/// come before any other.
pub proof fn law_preferred_first(kind: i32)
    ensures
        score(2, false) > score(1, false),
        score(1, true) > score(2, true),
        kind != 1 && kind != 2 ==> score(kind, true) < score(2, true) && score(kind, false) < score(1, false),
        score(kind, true) > 0 && score(kind, false) > 0,
{
}

/// The images are as large as the surface says; where it leaves that open they are as large as wanted,
/// and otherwise as near to that as is allowed.
pub proof fn law_extent(caps: Caps, wanted: Extent)
    requires
        caps.min.w <= caps.max.w,
        caps.min.h <= caps.max.h,
    ensures
        ({
            let e = extent_for(caps, wanted);
            let open = caps.current.w == 0xffff_ffff;
            &&& !open ==> e == caps.current
            &&& open ==> caps.min.w <= e.w <= caps.max.w && caps.min.h <= e.h <= caps.max.h
            &&& open && caps.min.w <= wanted.w <= caps.max.w ==> e.w == wanted.w
            &&& open && caps.min.h <= wanted.h <= caps.max.h ==> e.h == wanted.h
            &&& open && wanted.w < caps.min.w ==> e.w == caps.min.w
            &&& open && wanted.w > caps.max.w ==> e.w == caps.max.w
            &&& open && wanted.h < caps.min.h ==> e.h == caps.min.h
            &&& open && wanted.h > caps.max.h ==> e.h == caps.max.h
        }),
{
}

/// There is one image more than the least, unless that is more than are allowed.
pub proof fn law_images(caps: Caps)
    requires
        caps.max_images == 0 || caps.min_images <= caps.max_images,
    ensures
        caps.max_images == 0 ==> images_for(caps) == caps.min_images + 1,
        caps.max_images > caps.min_images ==> images_for(caps) == caps.min_images + 1,
        caps.max_images > 0 && caps.max_images == caps.min_images ==> images_for(caps) == caps.min_images,
{
}

/// The images are made anew where that was asked for; nothing is drawn into images without an extent, and
/// a frame that came to nothing is tried once more and no oftener.
pub proof fn law_tries(c: Chain)
    ensures
        c.want_rebuild ==> tried(c) is Rebuild,
        !c.want_rebuild && (c.extent.w == 0 || c.extent.h == 0) ==> tried(c) == Step::Done(Ok(false)),
        !c.want_rebuild && c.extent.w > 0 && c.extent.h > 0 ==> tried(c) is Acquire,
        after_nothing(c, true) == Step::Done(Ok(false)),
        after_nothing(c, false) == tried(c),
        ready(c) is Acquire <==> c.extent.w > 0 && c.extent.h > 0,
{
}

/// A device is taken only if it is of version 1.3 and has a family that can both draw and show; the
/// family is the first such one. None that is taken is less welcome than another that could be.
pub proof fn law_device(d: Seq<Device>, prefer: bool, k: int, j: int, q: int)
    requires
        best_device(d, prefer, k),
        first_family(d[k].families@, q),
    ensures
        d[k].api >= 0x40_3000,
        d[k].families@[q].flags % 2 == 1,
        d[k].families@[q].shows,
        forall|i: int| 0 <= i < q ==> d[k].families@[i].flags % 2 == 0 || !(#[trigger] d[k].families@[i]).shows,
        0 <= j < d.len() && d[j].api >= 0x40_3000 && (exists|i: int|
            0 <= i < d[j].families@.len() && (#[trigger] d[j].families@[i]).flags % 2 == 1
                && d[j].families@[i].shows) ==> {
            &&& score(d[j].kind, prefer) <= score(d[k].kind, prefer)
            &&& j < k ==> score(d[j].kind, prefer) < score(d[k].kind, prefer)
        },
{
    assert forall|n: u32| #[trigger] (n & 1) == 1 <==> n % 2 == 1 by {
        assert((n & 1) == 1 <==> n % 2 == 1) by (bit_vector);
    }
    assert forall|i: int| 0 <= i < q implies d[k].families@[i].flags % 2 == 0
        || !(#[trigger] d[k].families@[i]).shows by {
        assert(!serves(d[k].families@[i]));
    }
    if 0 <= j < d.len() && d[j].api >= 0x40_3000 && (exists|i: int|
        0 <= i < d[j].families@.len() && (#[trigger] d[j].families@[i]).flags % 2 == 1
            && d[j].families@[i].shows) {
        let i = choose|i: int|
            0 <= i < d[j].families@.len() && (#[trigger] d[j].families@[i]).flags % 2 == 1
                && d[j].families@[i].shows;
        assert(serves(d[j].families@[i]));
        assert(usable(d[j]));
    }
}

/// A memory type suits only where it is allowed, has all that is wanted and nothing that is to be avoided;
/// the first is taken.
pub proof fn law_memory_type(types: Seq<u32>, bits: u32, want: u32, avoid: u32, i: int, j: int)
    requires
        first_type(types, bits, want, avoid, i),
        0 <= j < i < 32,
    ensures
        types[i] & want == want,
        types[i] & avoid == 0,
        bits & (1u32 << (i as u32)) != 0,
        bits & (1u32 << (j as u32)) == 0 || types[j] & want != want || types[j] & avoid != 0,
{
    assert(!suits(types, j, bits, want, avoid));
}

} // verus!
