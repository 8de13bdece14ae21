use glint::bytes::{put_all, put_u16, put_u32, put_u64, u16_at, u32_at, u64_at};
use glint::cache::Store;
use glint::config::Config;
use glint::files::{
    chosen_len, equal_but_case, is_image, list, open_dialog, recycle, same_name, wide, Entry, EXTENSIONS,
};
use glint::loader::{workers, File, Key, Loader, Msg, Task, Work, CANCELLED, FULL, PREVIEW, THUMB};
use glint::nav::{near_of, Nav, Target};
use glint::textures::{Place, Tex, Textures, IMAGE_SLOTS};
use glint::wic::Img;

fn file(path: u64, name: &str) -> File {
    File { path, name: name.to_string() }
}

fn img(id: u64, full: bool, thumb: bool) -> Img {
    Img { w: 4, h: 3, px: vec![0; 48], full_w: 40, full_h: 30, orient: 1, full, thumb, id }
}

fn config(text: &str) -> Config {
    Config::load(Some(text)).0
}

#[test]
fn extensions_of_images() {
    assert!(is_image("photo.jpg"));
    assert!(is_image("PHOTO.JPG"));
    assert!(is_image("a.b.Heic"));
    assert!(!is_image("photo.txt"));
    assert!(!is_image("jpg"));
    assert!(!is_image(".jpg"));
    assert!(!is_image("photo."));
    assert!(!is_image(".."));
    assert!(!is_image(""));
    for e in EXTENSIONS {
        assert!(is_image(&format!("x.{e}")));
    }
}

#[test]
fn only_images_are_listed_in_order() {
    let e = |file: bool, name: &str| Entry { file, name: name.to_string() };
    let v = [e(true, "b.png"), e(false, "c.png"), e(true, "d.txt"), e(true, "a.gif")];
    assert_eq!(list(&v), vec![0, 3]);
    assert_eq!(list(&[]), Vec::<usize>::new());
}

#[test]
fn names_are_the_same_in_any_case() {
    assert!(same_name(Some("Ärger.JPG"), Some("ärger.jpg")));
    assert!(!same_name(Some("a.jpg"), Some("b.jpg")));
    assert!(!same_name(None, None));
    assert!(!same_name(Some("a"), None));
    let (a, b): (Vec<char>, Vec<char>) = ("-EMBEDding".chars().collect(), "-Embedding".chars().collect());
    assert!(equal_but_case(&a, &b));
    assert!(!equal_but_case(&a, &b[1..]));
}

#[test]
fn what_the_shell_is_handed() {
    assert_eq!(wide(&[65, 66]), vec![65, 66, 0]);
    assert_eq!(recycle(&[65]), vec![65, 0, 0]);
    let f = String::from_utf16(&open_dialog()).unwrap();
    assert!(f.starts_with("Images\0*.jpg;*.jpeg;*.jpe;"));
    assert!(f.ends_with(";*.jxl\0All files\0*.*\0\0"));
    assert_eq!(chosen_len(&[67, 58, 0, 65]), 2);
    assert_eq!(chosen_len(&[0, 65]), 0);
    assert_eq!(chosen_len(&[65, 65]), 0);
}

#[test]
fn numbers_come_back_from_bytes() {
    let mut v = vec![9u8];
    put_u16(&mut v, 0xbeef);
    put_u32(&mut v, 0xdead_beef);
    put_u64(&mut v, 0x0102_0304_0506_0708);
    put_all(&mut v, &[1, 2]);
    assert_eq!(u16_at(&v, 1), 0xbeef);
    assert_eq!(u32_at(&v, 3), 0xdead_beef);
    assert_eq!(u64_at(&v, 7), 0x0102_0304_0506_0708);
    assert_eq!(&v[15..], &[1, 2]);
}

#[test]
fn a_core_is_left_to_the_window() {
    assert_eq!(workers(None), 3);
    assert_eq!(workers(Some(1)), 2);
    assert_eq!(workers(Some(4)), 3);
    assert_eq!(workers(Some(32)), 6);
}

#[test]
fn a_plan_replaces_the_one_before() {
    let k = |path: u64, kind: u8| Key { path, kind };
    let mut l = Loader::start((1920, 1080));
    assert_eq!(l.wake(), None);
    l.set_hwnd(77);
    l.set_max_dim(8192);
    l.set_target(2560, 1440);
    assert_eq!(l.wake(), Some(77));
    l.plan(vec![k(1, THUMB), k(1, PREVIEW), k(2, FULL)]);
    let a = l.take().unwrap();
    assert!(a == k(1, THUMB));
    let t = l.worker(a).unwrap();
    assert_eq!((t.target, t.max_dim), (None, 8192));
    let b = l.take().unwrap();
    assert_eq!(l.worker(b).unwrap().target, Some((2560, 1440)));
    // What runs is not queued again, what is not wanted any more vanishes.
    l.plan(vec![k(1, PREVIEW), k(3, PREVIEW)]);
    assert_eq!(l.queue.len(), 1);
    assert!(l.still(k(1, PREVIEW)) && !l.still(k(1, THUMB)) && !l.still(k(2, FULL)));
    assert!(l.finish(k(1, THUMB), Err(CANCELLED.to_string())).is_none());
    match l.finish(k(1, PREVIEW), Ok(img(4, false, false))) {
        Some(Msg::Decoded { path: 1, kind: PREVIEW, img: Ok(i) }) => assert_eq!(i.id, 4),
        _ => panic!("the picture is sent"),
    }
    assert!(l.running.is_empty());
    assert!(l.worker(k(2, FULL)).is_none());
    match l.finish(k(9, FULL), Err("no codec".to_string())) {
        Some(Msg::Decoded { path: 9, kind: FULL, img: Err(e) }) => assert_eq!(e, "no codec"),
        _ => panic!("the error is sent"),
    }
    assert!(l.take().is_some() && l.take().is_none());
}

#[test]
fn what_a_job_asks_for() {
    let task = |kind: u8| {
        let target = if kind == PREVIEW { Some((1920, 1080)) } else { None };
        Task { key: Key { path: 1, kind }, target, max_dim: 16384 }
    };
    assert!(matches!(task(THUMB).work(true), Work::Thumbnail));
    assert!(matches!(task(PREVIEW).work(true), Work::Decode { target: Some((1920, 1080)), max_dim: 16384 }));
    assert!(matches!(task(FULL).work(true), Work::Decode { target: None, max_dim: 16384 }));
    for kind in [THUMB, PREVIEW, FULL] {
        assert!(matches!(task(kind).work(false), Work::Fail(e) if e == "WIC is not available"));
    }
}

#[test]
fn steps_wrap_or_stop_at_the_ends() {
    assert_eq!(near_of(0, 3, -1, true), Some(2));
    assert_eq!(near_of(2, 3, 1, true), Some(0));
    assert_eq!(near_of(2, 3, 1, false), None);
    assert_eq!(near_of(0, 3, -1, false), None);
    assert_eq!(near_of(1, 3, 1, false), Some(2));
}

#[test]
fn opening_a_file_and_its_folder() {
    let (mut nav, opened) = Nav::open(Target { file: file(5, "B.jpg"), folder: false, parent: Some(1) }, 3);
    assert_eq!(nav.generation, 4);
    assert_eq!(nav.files.len(), 1);
    assert!(nav.select.is_some());
    assert_eq!(opened.plan.unwrap().len(), 2);
    assert_eq!(opened.list, Some(1));
    // An older listing is ignored; the file is found again in any case.
    assert!(!nav.listed(3, vec![file(9, "x.jpg")]));
    assert!(nav.listed(4, vec![file(8, "a.jpg"), file(7, "b.JPG"), file(6, "c.jpg")]));
    assert_eq!(nav.cur, 1);
    assert!(nav.select.is_none());
    assert_eq!(nav.step(-1, false), Some(0));
    assert!(nav.go(2));
    assert!(!nav.go(2));
    assert!(!nav.go(3));
    nav.remove();
    assert_eq!((nav.files.len(), nav.cur), (2, 1));
    nav.close();
    assert!(nav.files.is_empty());
    assert_eq!(nav.step(1, true), None);
}

#[test]
fn a_step_forth_and_back() {
    let (mut nav, _) = Nav::open(Target { file: file(1, "photos"), folder: true, parent: None }, 0);
    assert!(nav.listed(1, vec![file(1, "a.jpg"), file(2, "b.jpg"), file(3, "c.jpg")]));
    for wrap in [true, false] {
        let on = nav.step(1, wrap).unwrap();
        nav.go(on);
        let back = nav.step(-1, wrap).unwrap();
        nav.go(back);
        assert_eq!(nav.cur, 0);
    }
}

#[test]
fn steps_of_any_length() {
    let (mut nav, _) = Nav::open(Target { file: file(1, "photos"), folder: true, parent: None }, 0);
    assert!(nav.listed(1, vec![file(1, "a.jpg"), file(2, "b.jpg"), file(3, "c.jpg")]));
    assert_eq!(nav.step(7, true), Some(1));
    assert_eq!(nav.step(-7, true), Some(2));
    assert_eq!(nav.step(7, false), Some(2));
    assert_eq!(nav.step(-7, false), Some(0));
    assert_eq!(nav.step(0, true), Some(0));
    for d in [isize::MIN + 1, -4, 5, isize::MAX] {
        let there = nav.step(d, true).unwrap();
        nav.go(there);
        assert_eq!(nav.step(-d, true), Some(0));
        nav.go(0);
    }
    assert_eq!(nav.step(isize::MIN, false), Some(0));
}

#[test]
fn the_current_image_comes_first() {
    let (mut nav, _) = Nav::open(Target { file: file(1, "photos"), folder: true, parent: None }, 0);
    nav.listed(1, (1..=6).map(|i| file(i, &format!("{i}.jpg"))).collect());
    nav.go(2);
    let order = nav.order(1, true, 2, 1);
    assert_eq!(order[0], 2);
    let mut sorted = order.clone();
    sorted.sort_unstable();
    sorted.dedup();
    assert_eq!(sorted.len(), order.len());
    assert!(order.contains(&3) && order.contains(&4) && order.contains(&1) && !order.contains(&5));

    let cfg = config("prefetch_ahead = 2\nprefetch_behind = 1\n");
    let mut store = Store::new();
    let s = store.schedule(&nav, 1, &cfg);
    assert_eq!(s.jobs[0].path, 3);
    assert!(s.jobs.iter().all(|k| store.keep.contains(&k.path)));
    assert!(s.jobs.iter().all(|k| k.kind != FULL || k.path == 3));
    // What came of a plan is not asked for again.
    store.receive(3, PREVIEW, Ok(img(1, false, false)));
    let t = store.schedule(&nav, 1, &cfg);
    assert!(!t.jobs.iter().any(|k| k.path == 3 && k.kind == PREVIEW));
    assert!(t.jobs.iter().any(|k| k.path == 3 && k.kind == FULL));
    assert!(store.ready(Some(3)));
    assert!(!store.ready(Some(4)));
    // Once it is far away it is let go.
    nav.go(5);
    let cfg = config("prefetch_ahead = 0\nprefetch_behind = 0\nwrap = false\n");
    let u = store.schedule(&nav, 1, &cfg);
    assert!(u.gone.contains_key(&3));
    assert!(store.get(3).is_none());
}

#[test]
fn an_error_is_kept_and_the_best_pixels_are_shown() {
    let mut store = Store::new();
    store.keep.push(1);
    store.receive(1, THUMB, Ok(img(1, false, true)));
    assert_eq!(store.get(1).unwrap().best().map(|i| i.id), Some(1));
    assert!(!store.get(1).unwrap().decoded());
    store.receive(1, FULL, Ok(img(3, true, false)));
    store.receive(1, PREVIEW, Ok(img(2, false, false)));
    assert_eq!(store.get(1).unwrap().best().map(|i| i.id), Some(3));
    assert!(store.get(1).unwrap().decoded());
    store.keep.push(2);
    store.receive(2, PREVIEW, Err("no codec".to_string()));
    assert_eq!(store.get(2).unwrap().err.as_deref(), Some("no codec"));
    assert!(store.remove(2).is_some());
    assert_eq!(store.clear().len(), 1);
    assert!(store.get(1).is_none());
}

#[test]
fn ranks_of_pixels() {
    assert_eq!(img(1, false, true).rank(), 0);
    assert_eq!(img(1, false, false).rank(), 1);
    assert_eq!(img(1, true, false).rank(), 2);
}

#[test]
fn textures_of_far_files_give_way() {
    let files: Vec<File> = (1..=9).map(|i| file(i, &format!("{i}.jpg"))).collect();
    let mut t = Textures::new();
    for i in 0..IMAGE_SLOTS {
        let x = Tex::of(i as u64 + 1, &img(i as u64, false, false));
        match t.on_gpu(&x, &files, 0) {
            Place::Upload(s) => t.put(s, x),
            _ => panic!("there is room"),
        }
    }
    t.show(0);
    // The same pixels are there already; the full image serves where a preview is asked for.
    let again = Tex::of(2, &img(1, false, false));
    assert!(matches!(t.on_gpu(&again, &files, 0), Place::Ready(_)));
    let full = Tex::of(2, &img(50, true, false));
    assert!(full.serves(&again) && !again.serves(&full));
    // The farthest file's slot goes to a new one, never the one that is shown.
    let new = Tex::of(5, &img(60, false, false));
    match t.on_gpu(&new, &files, 4) {
        Place::Upload(s) => {
            assert_ne!(s, t.shown_slot);
            t.put(s, new);
        }
        _ => panic!("a slot is given up"),
    }
    assert!(t.forget(5).is_some());
    assert!(t.forget(5).is_none());
    t.show_nothing();
    assert!(t.shown.is_none());
    t.clear();
    assert!(t.slots.iter().all(|s| s.is_none()));
}
