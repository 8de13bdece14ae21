use glint::clipboard::{bmp_file, image, opening, save, Content, Opening, OPEN_TRIES};
use glint::install::{
    add_entry, dir, ini_beside, install, is_installed_copy, kilobytes, shortcut_path, stopping, target, uninstall,
    uninstall_script, Here, Installing, Next, UNINSTALL,
};
use glint::path::{ends_with, join, with_file_name};
use glint::launch::{flag, launch, report, screen, Flag, Launch, Viewing};
use glint::assoc::RegOp;
use glint::thumbcache::{
    cache_id, database, lookup, mix, volume_guid, Ask, FileFacts, Volumes, MAX_PROBE, SEED,
};

fn units(s: &str, len: usize) -> Vec<u16> {
    let mut v: Vec<u16> = s.encode_utf16().collect();
    v.resize(len, 0);
    v
}

fn dib(header: u32, bpp: u16, compression: u32, used: u32) -> Vec<u8> {
    let mut v = vec![0u8; 44];
    v[0..4].copy_from_slice(&header.to_le_bytes());
    v[14..16].copy_from_slice(&bpp.to_le_bytes());
    v[16..20].copy_from_slice(&compression.to_le_bytes());
    v[32..36].copy_from_slice(&used.to_le_bytes());
    v
}

fn offset(f: &[u8]) -> u32 {
    u32::from_le_bytes([f[10], f[11], f[12], f[13]])
}

#[test]
fn a_bitmap_gets_its_file_header() {
    let d = dib(40, 32, 0, 0);
    let f = bmp_file(&d).unwrap();
    assert_eq!(&f[0..2], b"BM");
    assert_eq!(&f[2..6], &58u32.to_le_bytes());
    assert_eq!(&f[6..10], &[0; 4]);
    assert_eq!(offset(&f), 54);
    assert_eq!(&f[14..], &d[..]);
    assert_eq!(offset(&bmp_file(&dib(40, 32, 3, 0)).unwrap()), 66);
    assert_eq!(offset(&bmp_file(&dib(124, 32, 3, 0)).unwrap()), 138);
    assert_eq!(offset(&bmp_file(&dib(40, 8, 0, 0)).unwrap()), 54 + 1024);
    assert_eq!(offset(&bmp_file(&dib(40, 1, 0, 0)).unwrap()), 54 + 8);
    assert_eq!(offset(&bmp_file(&dib(40, 8, 0, 16)).unwrap()), 54 + 64);
    assert_eq!(bmp_file(&d[..35]), None);
    assert!(bmp_file(&d[..36]).is_some());
}

#[test]
fn the_best_of_the_clipboard() {
    let names = vec!["a.txt".to_string(), "b.PNG".to_string(), "c.jpg".to_string()];
    assert!(matches!(image(&names, Some(vec![1]), None, None), Some(Content::Copied(1))));
    let none = vec!["a.txt".to_string()];
    match image(&none, Some(vec![1, 2]), Some(dib(40, 32, 0, 0)), None) {
        Some(Content::Pixels { bytes, ext }) => assert_eq!((bytes, ext), (vec![1, 2], "png")),
        _ => panic!("the PNG is taken"),
    }
    match image(&none, None, Some(vec![0; 10]), Some(dib(40, 32, 0, 0))) {
        Some(Content::Pixels { bytes, ext }) => assert_eq!((bytes.len(), ext), (58, "bmp")),
        _ => panic!("the older form is taken"),
    }
    assert!(image(&Vec::new(), None, None, None).is_none());
    assert_eq!(save(1700000000123, "png"), "clipboard-1700000000123.png");
    assert_ne!(save(1, "1.png"), save(11, "png"));
    assert_eq!(opening(1, false), Opening::Again);
    assert_eq!(opening(OPEN_TRIES, false), Opening::GiveUp);
    assert_eq!(opening(OPEN_TRIES, true), Opening::Open);
}

#[test]
fn where_the_program_is_installed() {
    let t = target(Some("C:\\Users\\x\\AppData\\Local"), "C:\\Temp");
    assert_eq!(t, "C:\\Users\\x\\AppData\\Local\\Programs\\Glint\\glint.exe");
    assert_eq!(dir(None, "D:\\T\\"), "D:\\T\\Programs\\Glint");
    assert_eq!(join("", "a"), "a");
    assert_eq!(join("C:", "a"), "C:a");
    assert_eq!(join("C:/", "a"), "C:/a");
    assert!(is_installed_copy(Some(&t.to_uppercase()), &t));
    assert!(!is_installed_copy(None, &t));
    assert!(!is_installed_copy(Some("C:\\glint.exe"), &t));
    assert_eq!(
        shortcut_path(Some("C:\\R")),
        "C:\\R\\Microsoft\\Windows\\Start Menu\\Programs\\Glint.lnk"
    );
    assert!(shortcut_path(None).starts_with("Microsoft"));
    assert_eq!(ini_beside("C:\\a\\glint.exe"), "C:\\a\\glint.ini");
    assert_eq!(ini_beside("glint.exe"), "glint.ini");
    assert_eq!(ini_beside("C:/a/glint.exe"), "C:/a\\glint.ini");
    assert_eq!(dir(Some("\\\\?\\C:\\x\\"), ""), "\\\\?\\C:\\x\\Programs\\Glint");
}

#[test]
fn a_name_in_a_folder() {
    // Taken to the letter: separators are not doubled, and a slash is none.
    assert_eq!(join("\\\\?\\C:", "a"), "\\\\?\\C:\\a");
    assert_eq!(join("\\\\?\\C:\\x\\\\y\\", "a"), "\\\\?\\C:\\x\\y\\a");
    assert_eq!(join("\\\\?\\C:\\x/", "a"), "\\\\?\\C:\\x/\\a");
    assert_eq!(join("\\\\?\\UNC\\s\\t\\\\", "a"), "\\\\?\\UNC\\s\\t\\a");
    // Anywhere else they stay as they are.
    assert_eq!(join("C:\\x\\\\y\\", "a"), "C:\\x\\\\y\\a");
    assert_eq!(join("\\\\s\\t", "a"), "\\\\s\\t\\a");
}

#[test]
fn a_name_in_the_place_of_another() {
    for (path, expected) in [
        ("C:\\g.exe", "C:\\n"),
        ("C:g.exe", "C:n"),
        ("C:\\a\\\\g.exe", "C:\\a\\n"),
        ("C:\\a\\.\\g.exe\\", "C:\\a\\n"),
        (".\\g.exe", ".\\n"),
        ("\\\\s\\t\\g.exe", "\\\\s\\t\\n"),
        ("\\\\?\\C:\\a\\g.exe", "\\\\?\\C:\\a\\n"),
        ("C:\\", "C:\\n"),
        ("a\\..", "a\\..\\n"),
        ("", "n"),
    ] {
        assert_eq!(with_file_name(path, "n"), expected);
    }
}

#[test]
fn paths_that_end_in_our_names() {
    for ours in ["C:\\x\\Programs\\Glint", "C:Programs\\Glint", "Programs\\Glint", "C:/Programs/Glint/", "\\\\?\\C:\\Programs\\Glint"] {
        assert!(ends_with(ours, "Programs", "Glint"));
    }
    for other in ["C:\\xPrograms\\Glint", "ab:Programs\\Glint", "\\\\Programs\\Glint", "\\\\?\\C:\\x/Programs\\Glint", "Glint", ""] {
        assert!(!ends_with(other, "Programs", "Glint"));
    }
}

fn go(at: Installing, out: Result<(), String>, in_place: bool) -> Installing {
    match install(at, out, Here { in_place, settings: true, kept: false }, "D", "T") {
        Next::Go(n) => n,
        Next::Failed(e) => panic!("{e}"),
    }
}

#[test]
fn steps_of_an_installation() {
    let no = || Err("no".to_string());
    assert_eq!(go(Installing::Folder, Ok(()), false), Installing::Copy);
    assert_eq!(go(Installing::Folder, Ok(()), true), Installing::SetupDone);
    assert_eq!(go(Installing::Copy, Ok(()), false), Installing::Settings);
    assert_eq!(go(Installing::Copy, no(), false), Installing::MoveOld);
    assert_eq!(go(Installing::MoveOld, Ok(()), false), Installing::CopyAgain);
    assert_eq!(go(Installing::Settings, no(), false), Installing::SetupDone);
    assert_eq!(go(Installing::SetupDone, no(), false), Installing::Shortcut);
    assert_eq!(go(Installing::Shortcut, Ok(()), false), Installing::Entry);
    assert_eq!(go(Installing::Entry, Ok(()), false), Installing::Done);
    let here = Here { in_place: false, settings: true, kept: false };
    let fails = |at: Installing| match install(at, Err("no".to_string()), here, "D", "T") {
        Next::Failed(e) => e,
        Next::Go(_) => panic!("it fails"),
    };
    assert_eq!(fails(Installing::Folder), "D: no");
    assert_eq!(fails(Installing::MoveOld), "T: no");
    assert_eq!(fails(Installing::CopyAgain), "T: no");
    assert_eq!(fails(Installing::Shortcut), "no");
    assert_eq!(fails(Installing::Entry), "no");
}

#[test]
fn settings_go_along_where_there_are_none() {
    for (settings, kept, copied) in [(true, false, true), (true, true, false), (false, false, false), (false, true, false)] {
        for at in [Installing::Copy, Installing::CopyAgain] {
            let next = match install(at, Ok(()), Here { in_place: false, settings, kept }, "D", "T") {
                Next::Go(n) => n,
                Next::Failed(e) => panic!("{e}"),
            };
            assert_eq!(next == Installing::Settings, copied);
            assert_eq!(next == Installing::SetupDone, !copied);
        }
    }
}

#[test]
fn the_entry_in_the_list_of_apps() {
    let v = add_entry("C:\\g.exe", "C:\\", "0.1.0", 1_153_433);
    assert_eq!(v.len(), 10);
    assert!(matches!(&v[5], RegOp::SetText { key, value, .. } if key == UNINSTALL && value == "\"C:\\g.exe\" --uninstall"));
    assert!(matches!(&v[7], RegOp::SetNumber { name, value: 1126, .. } if name == "EstimatedSize"));
    assert_eq!(kilobytes(1023), 0);
    let (ops, last) = uninstall("C:\\g.exe", &[false; 20]);
    assert_eq!(ops.len(), 26);
    assert!(matches!(last, RegOp::DeleteTree { key } if key == UNINSTALL));
    assert_eq!(
        uninstall_script("C:\\L\\Programs\\Glint", true),
        Some("ping -n 3 127.0.0.1 >nul & rmdir /s /q \"C:\\L\\Programs\\Glint\"".to_string())
    );
    assert_eq!(uninstall_script("C:\\L\\Programs\\Glint", false), None);
    assert_eq!(uninstall_script("C:\\Windows", true), None);
    assert_eq!(uninstall_script("C:\\MyPrograms\\Glint", true), None);
    assert!(stopping(1, true) && !stopping(50, true) && !stopping(1, false));
}

#[test]
fn the_command_line() {
    assert_eq!(flag(None), Flag::File);
    assert_eq!(flag(Some("C:\\a.jpg")), Flag::File);
    assert_eq!(flag(Some("--register")), Flag::Register);
    assert_eq!(flag(Some("--unregister")), Flag::Unregister);
    assert_eq!(flag(Some("--uninstall")), Flag::Uninstall);
    assert_eq!(flag(Some("--quit")), Flag::Quit);
    assert_eq!(flag(Some("--background")), Flag::Background);
    assert_eq!(flag(Some("-embedding")), Flag::Background);
    assert_eq!(flag(Some("/EMBEDDING")), Flag::Background);
    assert_eq!(flag(Some("--window")), Flag::Window);
    assert_eq!(flag(Some("--what")), Flag::Other);
    assert_eq!(flag(Some("-q")), Flag::File);
}

#[test]
fn a_running_viewer_takes_the_file() {
    assert_eq!(launch(Flag::File, true, false), Launch::HandOver);
    let view = Launch::View(Viewing { file: Some(1), background: false, detached: false });
    assert_eq!(launch(Flag::File, true, true), view);
    assert_eq!(launch(Flag::File, false, false), view);
    assert_eq!(launch(Flag::Background, true, false), Launch::Exit);
    assert_eq!(
        launch(Flag::Background, false, false),
        Launch::View(Viewing { file: None, background: true, detached: false })
    );
    assert_eq!(launch(Flag::Quit, true, false), Launch::Quit);
    assert_eq!(launch(Flag::Quit, false, false), Launch::Exit);
    assert_eq!(launch(Flag::Uninstall, true, false), Launch::Uninstall);
    assert!(matches!(launch(Flag::Window, true, false), Launch::View(v) if v.detached && v.file == Some(2)));
    assert_eq!(report(Ok(()), "fine"), ("fine".to_string(), false));
    assert_eq!(report(Err("no".to_string()), "fine"), ("no".to_string(), true));
    assert_eq!(screen(0, 0), (640, 480));
    assert_eq!(screen(2560, 1440), (2560, 1440));
}

fn mixed(mut seed: u64, bytes: &[u8]) -> u64 {
    for &b in bytes {
        seed ^= (seed >> 2).wrapping_add(seed.wrapping_mul(2080)).wrapping_add(b as u64);
    }
    seed
}

#[test]
fn the_key_of_a_file() {
    assert_eq!(mix(SEED, &[]), SEED);
    assert_eq!(mix(SEED, &[1, 2, 255]), mixed(SEED, &[1, 2, 255]));
    let f = FileFacts { index_high: 2, index_low: 1, written_low: 10, date: 0x5a21, time: 0x6b32, back_low: 3 };
    let guid = [7u8; 16];
    let mut all = guid.to_vec();
    all.extend_from_slice(&((2u64 << 32) | 1).to_le_bytes());
    all.extend(".JPG".encode_utf16().flat_map(|u| u.to_le_bytes()));
    all.extend_from_slice(&0x5a21_6b32u32.to_le_bytes());
    all.extend_from_slice(&3u32.wrapping_sub(10).to_le_bytes());
    assert_eq!(cache_id(&f, &guid, "a.b.JPG"), Some(mixed(SEED, &all)));
    // An exact time has nothing after it, a name without a dot no extension.
    let exact = FileFacts { written_low: 3, ..f };
    let mut all = guid.to_vec();
    all.extend_from_slice(&((2u64 << 32) | 1).to_le_bytes());
    all.extend_from_slice(&0x5a21_6b32u32.to_le_bytes());
    assert_eq!(cache_id(&exact, &guid, "readme"), Some(mixed(SEED, &all)));
    assert_eq!(cache_id(&FileFacts { index_high: 0, index_low: 0, ..exact }, &guid, "a.jpg"), None);
}

#[test]
fn identifiers_of_volumes() {
    let name = units("\\\\?\\Volume{01020304-0506-0708-090a-0b0c0d0e0f10}\\", 64);
    let guid = vec![4, 3, 2, 1, 6, 5, 8, 7, 9, 10, 11, 12, 13, 14, 15, 16];
    assert_eq!(volume_guid(&name), Some(guid.clone()));
    assert_eq!(volume_guid(&units("C:\\", 64)), None);
    assert_eq!(volume_guid(&units("\\\\?\\Volume{zz}", 64)), None);
    let mut v = Volumes::new();
    assert_eq!(v.find(5), None);
    assert_eq!(v.learn(5, &name), Some(guid.clone()));
    assert_eq!(v.find(5), Some(guid));
    assert_eq!(v.find(6), None);
    assert_eq!(v.learn(6, &units("x", 64)), None);
}

const KEY: u64 = 0x1122_3344_5566_7788;

/// An index of `n` entries, the ones given at their slots.
fn index(n: u32, entries: &[(u64, u64, [u32; 3])]) -> Vec<u8> {
    let mut v = vec![0u8; 40];
    v[4..8].copy_from_slice(b"IMMM");
    v[8] = 0x20;
    v[24..28].copy_from_slice(&n.to_le_bytes());
    let base = v.len();
    v.resize(base + n as usize * 72, 0);
    for &(slot, key, at) in entries {
        let e = base + slot as usize * 72;
        v[e..e + 8].copy_from_slice(&key.to_le_bytes());
        for k in 0..3 {
            v[e + 32 + k * 4..e + 36 + k * 4].copy_from_slice(&at[k].to_le_bytes());
        }
    }
    v
}

fn stored(key: u64, name: u32, pad: u32, data: &[u8]) -> Vec<u8> {
    let mut v = vec![0u8; 24];
    v[..4].copy_from_slice(b"CMMM");
    v[4] = 0x20;
    let mut h = vec![0u8; 56];
    h[..4].copy_from_slice(b"CMMM");
    h[8..16].copy_from_slice(&key.to_le_bytes());
    h[16..20].copy_from_slice(&name.to_le_bytes());
    h[20..24].copy_from_slice(&pad.to_le_bytes());
    h[24..28].copy_from_slice(&(data.len() as u32).to_le_bytes());
    v.extend(h);
    v.resize(v.len() + (name + pad) as usize, 0);
    v.extend_from_slice(data);
    v
}

fn run(idx: &[u8], dbs: [Option<&[u8]>; 3], key: u64) -> (Option<Vec<u8>>, usize) {
    let read = |f: Option<&[u8]>, at: u64, len: u64| -> Option<Vec<u8>> {
        f.and_then(|b| b.get(at as usize..(at + len) as usize)).map(|b| b.to_vec())
    };
    let (mut s, mut a) = lookup(key, idx.len() as u64);
    let mut reads = 0;
    loop {
        reads += 1;
        let came = match a {
            Ask::Index { at, len } => read(Some(idx), at, len),
            Ask::Database { k, at, len } => read(dbs[k], at, len),
            Ask::Found(b) => return (Some(b), reads),
            Ask::Nothing => return (None, reads),
        };
        let (t, b) = s.next(came);
        s = t;
        a = b;
    }
}

#[test]
fn a_thumbnail_is_found() {
    let n = 7;
    let slot = KEY % n as u64;
    let db = stored(KEY, 6, 2, b"picture");
    let idx = index(n, &[(slot, KEY, [24, 0, 0])]);
    assert_eq!(run(&idx, [Some(&db), None, None], KEY).0, Some(b"picture".to_vec()));
    // A larger database is asked where a smaller one has nothing, or another's entry.
    let idx = index(n, &[(slot, KEY, [0, u32::MAX, 24])]);
    assert_eq!(run(&idx, [None, None, Some(&db)], KEY).0, Some(b"picture".to_vec()));
    let other = stored(KEY + 1, 6, 2, b"other");
    let idx = index(n, &[(slot, KEY, [24, 24, 0])]);
    assert_eq!(run(&idx, [Some(&other), Some(&db), None], KEY).0, Some(b"picture".to_vec()));
    assert_eq!(run(&idx, [Some(&other), None, None], KEY).0, None);
    // Collisions are passed, round the end of the table.
    let next = (slot + 1) % n as u64;
    let idx = index(n, &[(slot, 5, [0; 3]), (next, KEY, [24, 0, 0])]);
    assert_eq!(run(&idx, [Some(&db), None, None], KEY).0, Some(b"picture".to_vec()));
    assert_eq!(database(2), "thumbcache_1280.db");
}

#[test]
fn a_thumbnail_is_missed() {
    let n = 7;
    let slot = KEY % n as u64;
    let db = stored(KEY, 0, 0, b"picture");
    // An empty slot ends the search.
    let idx = index(n, &[((slot + 1) % 7, KEY, [24, 0, 0])]);
    assert_eq!(run(&idx, [Some(&db), None, None], KEY).0, None);
    let mut bad = index(n, &[(slot, KEY, [24, 0, 0])]);
    bad[4] = b'X';
    assert_eq!(run(&bad, [Some(&db), None, None], KEY).0, None);
    assert_eq!(run(&[0; 20], [Some(&db), None, None], KEY).0, None);
    let mut short = index(n, &[(slot, KEY, [24, 0, 0])]);
    short[24] = 200;
    assert_eq!(run(&short, [Some(&db), None, None], KEY).0, None);
    // Another version, of the index or of the database; a larger database is still asked.
    let idx = index(n, &[(slot, KEY, [24, 24, 0])]);
    for version in [0x1f, 0x21, 0] {
        let mut old = idx.clone();
        old[8] = version;
        assert_eq!(run(&old, [Some(&db), Some(&db), None], KEY).0, None);
        let mut odd = db.clone();
        odd[4] = version;
        assert_eq!(run(&idx, [Some(&odd), None, None], KEY).0, None);
        assert_eq!(run(&idx, [Some(&odd), Some(&db), None], KEY).0, Some(b"picture".to_vec()));
    }
    // A picture of no size, or that is cut short.
    let empty = stored(KEY, 0, 0, b"");
    let idx = index(n, &[(slot, KEY, [24, 0, 0])]);
    assert_eq!(run(&idx, [Some(&empty), None, None], KEY).0, None);
    assert_eq!(run(&idx, [Some(&db[..db.len() - 1]), None, None], KEY).0, None);
    // A full table is not searched to its end.
    let full: Vec<(u64, u64, [u32; 3])> = (0..1000).map(|i| (i, 5, [0; 3])).collect();
    let (found, reads) = run(&index(1000, &full), [None, None, None], KEY);
    assert_eq!(found, None);
    assert_eq!(reads as u64, MAX_PROBE + 2);
    let few: Vec<(u64, u64, [u32; 3])> = (0..3).map(|i| (i, 5, [0; 3])).collect();
    assert_eq!(run(&index(3, &few), [None, None, None], KEY).1, 3 + 2);
}
