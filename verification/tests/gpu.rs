use ash::vk;
use glint::gpu::{
    check_version, choose_device, choose_format, choose_mode, memory_type, vkerr, Came, Caps, Chain, Device, Extent,
    Family, Step, API_1_0, API_1_3, BGRA_UNORM, DEVICE_LOCAL, DISCRETE_GPU, FIFO, HOST_MEMORY, INTEGRATED_GPU,
    MAILBOX, QUEUE_GRAPHICS, SRGB_NONLINEAR,
};
use glint::upload::{
    upload_commands, Cmd, Gpu, Layout, Memory, Placing, Staging, Texture, KEPT_STAGING, SLOTS, SLOT_TIP, SMALL_BLOCK,
    SMALL_KEPT, WARM_STAGING,
};

#[test]
fn numbers_of_vulkan() {
    assert_eq!(API_1_0, vk::API_VERSION_1_0);
    assert_eq!(API_1_3, vk::API_VERSION_1_3);
    assert_eq!(QUEUE_GRAPHICS, vk::QueueFlags::GRAPHICS.as_raw());
    assert_eq!(DISCRETE_GPU, vk::PhysicalDeviceType::DISCRETE_GPU.as_raw());
    assert_eq!(INTEGRATED_GPU, vk::PhysicalDeviceType::INTEGRATED_GPU.as_raw());
    assert_eq!(BGRA_UNORM, vk::Format::B8G8R8A8_UNORM.as_raw());
    assert_eq!(SRGB_NONLINEAR, vk::ColorSpaceKHR::SRGB_NONLINEAR.as_raw());
    assert_eq!(MAILBOX, vk::PresentModeKHR::MAILBOX.as_raw());
    assert_eq!(FIFO, vk::PresentModeKHR::FIFO.as_raw());
    assert_eq!(DEVICE_LOCAL, vk::MemoryPropertyFlags::DEVICE_LOCAL.as_raw());
    assert_eq!(
        HOST_MEMORY,
        (vk::MemoryPropertyFlags::HOST_VISIBLE | vk::MemoryPropertyFlags::HOST_COHERENT).as_raw()
    );
}

#[test]
fn an_old_loader_is_refused() {
    assert_eq!(check_version(Some(API_1_3)), Ok(()));
    let e = Err("Vulkan 1.3 is required (update the GPU driver)".to_string());
    assert_eq!(check_version(Some(API_1_3 - 1)), e);
    assert_eq!(check_version(None), e);
    assert_eq!(vkerr("caps", "ERROR_DEVICE_LOST"), "caps: ERROR_DEVICE_LOST");
}

fn device(api: u32, kind: i32, families: &[(u32, bool)]) -> Device {
    Device { api, kind, families: families.iter().map(|&(flags, shows)| Family { flags, shows }).collect() }
}

#[test]
fn the_preferred_device_is_chosen() {
    let all = vec![
        device(API_1_0, DISCRETE_GPU, &[(7, true)]),
        device(API_1_3, 4, &[(7, true)]),
        device(API_1_3, INTEGRATED_GPU, &[(6, true), (7, false), (3, true)]),
        device(API_1_3, DISCRETE_GPU, &[(7, true)]),
        device(API_1_3, DISCRETE_GPU, &[(7, true)]),
        device(API_1_3, DISCRETE_GPU, &[(6, true)]),
    ];
    assert_eq!(choose_device(&all, false), Ok((3, 0)));
    assert_eq!(choose_device(&all, true), Ok((2, 2)));
    let none = vec![device(API_1_3, DISCRETE_GPU, &[(7, false)])];
    assert_eq!(choose_device(&none, false), Err("no Vulkan 1.3 GPU can show in this window".to_string()));
}

#[test]
fn formats_and_modes() {
    assert_eq!(choose_format(&vec![(50, 0), (44, 0)]), 44);
    assert_eq!(choose_format(&vec![(50, 0), (44, 1)]), 50);
    assert_eq!(choose_mode(&vec![0, 2, 1]), MAILBOX);
    assert_eq!(choose_mode(&vec![0, 2]), FIFO);
    assert_eq!(choose_mode(&Vec::new()), FIFO);
}

#[test]
fn memory_of_the_right_kind() {
    // Device-local, host-visible, and both at once.
    let types = vec![1, 7, 6];
    assert_eq!(memory_type(&types, 0b111, HOST_MEMORY, DEVICE_LOCAL), Some(2));
    // What is to be avoided is taken where there is nothing else.
    assert_eq!(memory_type(&types, 0b011, HOST_MEMORY, DEVICE_LOCAL), Some(1));
    assert_eq!(memory_type(&types, 0b001, HOST_MEMORY, DEVICE_LOCAL), None);
    assert_eq!(memory_type(&types, 0b110, DEVICE_LOCAL, 0), Some(1));
}

fn caps(w: u32, h: u32) -> Caps {
    Caps {
        current: Extent { w, h },
        min: Extent { w: 1, h: 1 },
        max: Extent { w: 4096, h: 4096 },
        min_images: 2,
        max_images: 0,
    }
}

#[test]
fn a_swapchain_is_sized() {
    let mut c = Chain::new(Extent { w: 5000, h: 600 });
    assert_eq!(c.rebuild(caps(800, 600)), Some(3));
    assert_eq!(c.extent, Extent { w: 800, h: 600 });
    assert_eq!(c.rebuild(caps(u32::MAX, u32::MAX)), Some(3));
    assert_eq!(c.extent, Extent { w: 4096, h: 600 });
    assert_eq!(c.rebuild(Caps { max_images: 2, ..caps(800, 600) }), Some(2));
    assert_eq!(c.rebuild(caps(0, 600)), None);
    assert!(c.resized(800, 600));
    assert!(c.want_rebuild);
    c.rebuild(caps(800, 600));
    assert!(!c.resized(800, 600) && !c.want_rebuild);
    c.resize(801, 600);
    assert!(c.want_rebuild);
}

#[test]
fn a_frame_is_tried_twice() {
    let mut c = Chain::new(Extent { w: 800, h: 600 });
    c.rebuild(caps(800, 600));
    let (d, s) = c.draw();
    assert!(matches!(s, Step::Acquire));
    let (d, s) = c.acquired(d, Came::OutOfDate);
    assert!(matches!(s, Step::Rebuild));
    c.rebuild(caps(800, 600));
    let (d, s) = c.rebuilt(d, Ok(()));
    assert!(matches!(s, Step::Acquire));
    let (d, s) = c.acquired(d, Came::OutOfDate);
    assert!(matches!(s, Step::Rebuild));
    let (_, s) = c.rebuilt(d, Ok(()));
    assert!(matches!(s, Step::Done(Ok(false))));
}

#[test]
fn a_frame_that_fits_badly_is_the_last_of_its_chain() {
    let mut c = Chain::new(Extent { w: 800, h: 600 });
    c.rebuild(caps(800, 600));
    let (d, _) = c.draw();
    let (_, s) = c.acquired(d, Came::Fine((2, true)));
    assert!(matches!(s, Step::Record(2)));
    assert!(c.want_rebuild);
    assert_eq!(c.presented(Came::Fine(false)), Ok(true));
    let (d, s) = c.draw();
    assert!(matches!(s, Step::Rebuild));
    c.rebuild(caps(0, 0));
    let (_, s) = c.rebuilt(d, Ok(()));
    assert!(matches!(s, Step::Done(Ok(false))));
    let (_, s) = c.rebuilt(d, Err("caps: lost".to_string()));
    assert!(matches!(s, Step::Done(Err(e)) if e == "caps: lost"));
    let (_, s) = c.acquired(d, Came::Failed("ERROR_DEVICE_LOST".to_string()));
    assert!(matches!(s, Step::Done(Err(e)) if e == "acquire: ERROR_DEVICE_LOST"));
    assert_eq!(c.presented(Came::Failed("X".to_string())), Err("present: X".to_string()));
    assert_eq!(c.presented(Came::OutOfDate), Ok(true));
    assert!(c.want_rebuild);
}

fn texture(w: u32, h: u32, mips: u32, pooled: Option<u32>) -> Texture {
    Texture { w, h, mips, mem: 77, pooled }
}

#[test]
fn textures_are_used_again() {
    let mut g = Gpu::new();
    assert_eq!(g.size_of(SLOT_TIP), (0, 0));
    assert_eq!(g.place(0, 6000, 4000, true), Placing::Make { old: None, mips: 13 });
    g.made(0, texture(6000, 4000, 13, None));
    assert!(g.has_texture(0));
    assert_eq!(g.place(0, 6000, 4000, true), Placing::Reuse);
    assert_eq!(g.place(0, 6000, 4000, false), Placing::Make { old: Some(texture(6000, 4000, 13, None)), mips: 1 });
    assert!(!g.has_texture(0));
    g.made(1, texture(10, 20, 1, None));
    assert_eq!(g.size_of(1), (10, 20));
    assert_eq!(g.drawable(&vec![0, 1, SLOTS - 1]), vec![false, true, false]);
    assert_eq!(g.clear(1), Some(texture(10, 20, 1, None)));
    assert_eq!(g.clear(1), None);
}

#[test]
fn uploads_keep_apart() {
    let mut g = Gpu::new();
    assert_eq!(g.room(100), Some(KEPT_STAGING));
    assert_eq!(g.stage(0, 100, Some(KEPT_STAGING)), 0);
    assert_eq!(g.room(100), None);
    assert_eq!(g.stage(1, 7, None), 112);
    assert_eq!(g.stage(2, 16, None), 128);
    assert_eq!(g.staging, Some(Staging { size: KEPT_STAGING, used: 144 }));
    for i in 0..3 {
        for j in 0..3 {
            let (a, b) = (g.uploads[i], g.uploads[j]);
            assert!(i == j || a.offset + a.len <= b.offset || b.offset + b.len <= a.offset);
        }
    }
    // A big photo makes the buffer grow.
    assert_eq!(g.room(96_000_000), Some(1 << 27));
    assert_eq!(g.stage(3, 96_000_000, Some(1 << 27)), 144);
    g.place(1, 5, 5, false);
    assert_eq!(g.uploads.len(), 3);
    g.made(0, texture(5, 5, 1, None));
    let jobs = g.record_uploads();
    assert_eq!(jobs.len(), 1);
    assert_eq!(jobs[0].slot, 0);
    g.submitted();
    assert_eq!(g.staging, Some(Staging { size: 1 << 27, used: 0 }));
    assert!(g.release_staging());
    assert_eq!(g.warm(), Some(WARM_STAGING));
    assert_eq!(g.warmed(false), None);
    assert_eq!(g.warmed(true), Some(WARM_STAGING));
    assert!(!g.release_staging());
    assert_eq!(g.warm(), None);
}

#[test]
fn small_blocks_go_back_to_the_pool() {
    let mut g = Gpu::new();
    assert_eq!(g.memory(1000, 256, 3), (Memory::Allocate(SMALL_BLOCK), true));
    assert_eq!(g.memory(SMALL_BLOCK + 1, 256, 3), (Memory::Allocate(SMALL_BLOCK + 1), false));
    assert!(g.retire(texture(1, 1, 1, None)));
    for _ in 0..SMALL_KEPT {
        assert!(!g.retire(texture(1, 1, 1, Some(3))));
    }
    assert!(g.retire(texture(1, 1, 1, Some(3))));
    assert_eq!(g.memory(1000, 256, 4), (Memory::Allocate(SMALL_BLOCK), true));
    assert_eq!(g.memory(1000, 256, 3), (Memory::Pooled(77), true));
    assert_eq!(g.small.len(), SMALL_KEPT - 1);
}

#[test]
fn every_level_ends_fit_for_drawing() {
    let cmds = upload_commands(texture(5, 2, 3, None), 64);
    let mut l = vec![Layout::Undefined; 3];
    let mut sizes = Vec::new();
    for c in &cmds {
        match *c {
            Cmd::Barrier { base, count, from, to } => {
                for i in base..base + count {
                    assert!(from == Layout::Undefined || l[i as usize] == from);
                    l[i as usize] = to;
                }
            }
            Cmd::Copy { offset, w, h } => {
                assert_eq!((offset, w, h), (64, 5, 2));
                assert_eq!(l[0], Layout::TransferDst);
            }
            Cmd::Blit { level, from_w, from_h, to_w, to_h } => {
                assert_eq!(l[level as usize - 1], Layout::TransferSrc);
                assert_eq!(l[level as usize], Layout::TransferDst);
                sizes.push((from_w, from_h, to_w, to_h));
            }
        }
    }
    assert_eq!(l, vec![Layout::ShaderRead; 3]);
    assert_eq!(sizes, vec![(5, 2, 2, 1), (2, 1, 1, 1)]);
    assert_eq!(upload_commands(texture(5, 2, 1, None), 0).len(), 3);
}

#[test]
fn a_rebuild_is_asked_for_once() {
    let mut c = Chain::new(Extent { w: 800, h: 600 });
    c.resize(640, 480);
    let (d, s) = c.draw();
    assert!(matches!(s, Step::Rebuild));
    // It fails before the surface was asked: nothing is drawn, and it is not tried again by itself.
    c.start_rebuild();
    assert!(!c.want_rebuild && c.wanted == Extent { w: 640, h: 480 });
    let (_, s) = c.rebuilt(d, Err("caps: lost".to_string()));
    assert!(matches!(s, Step::Done(Err(e)) if e == "caps: lost"));
    let (_, s) = c.draw();
    assert!(matches!(s, Step::Done(Ok(false))));
}
