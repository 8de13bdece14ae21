use glint::assoc::{
    applying, autostart, choosing, get, is_default, is_ours, minute, set_autostart, set_default, set_dword,
    make_default, user_choice_hash, user_choice_key, user_sid, value_bytes, write_user_choice, written, Applying,
    Choosing, Did, Found, Making, RegOp, PROGID, READ_UNITS, REG_DWORD, REG_SZ, RUN,
};
use glint::com::{check, eq, is_id, Guid};
use glint::com_server::{
    factory_create, factory_query, get_selection, Command, Face, Given, CLASS_E_NOAGGREGATION, CLSID,
    E_NOINTERFACE, E_POINTER, IID_ICLASS_FACTORY, IID_IEXECUTE_COMMAND, IID_IOBJECT_WITH_SELECTION,
    IID_IUNKNOWN, S_OK,
};
use glint::md5::{base64, md5};

fn hex(b: &[u8]) -> String {
    b.iter().map(|x| format!("{x:02x}")).collect::<String>()
}

fn id(v: u128) -> Guid {
    let g = windows_sys::core::GUID::from_u128(v);
    Guid { data1: g.data1, data2: g.data2, data3: g.data3, data4: g.data4 }
}

fn units(s: &str) -> Vec<u16> {
    s.encode_utf16().collect()
}

#[test]
fn md5_matches_the_reference() {
    assert_eq!(md5(b"").len(), 16);
    assert_eq!(hex(&md5(b"")), "d41d8cd98f00b204e9800998ecf8427e");
    assert_eq!(hex(&md5(b"The quick brown fox jumps over the lazy dog")), "9e107d9d372bb6826bd81d3542a419d6");
}

#[test]
fn md5_at_the_edges_of_a_block() {
    assert_eq!(hex(&md5(b"a")), "0cc175b9c0f1b6a831c399e269772661");
    assert_eq!(
        hex(&md5(b"12345678901234567890123456789012345678901234567890123456789012345678901234567890")),
        "57edf4a22be3c955ac49da2e2107b67a"
    );
    assert_eq!(hex(&md5(&[b'a'; 55])), "ef1772b6dff9a122358552954ad0df65");
    assert_eq!(hex(&md5(&[b'a'; 56])), "3b0c8ac703f828b04c6c197006d17218");
    assert_eq!(hex(&md5(&[b'a'; 64])), "014842d480b571495a4a0363793f7367");
}

#[test]
fn base64_pads() {
    assert_eq!(base64(b"Man"), "TWFu");
    assert_eq!(base64(b"Ma"), "TWE=");
    assert_eq!(base64(&[0; 8]), "AAAAAAAAAAA=");
}

#[test]
fn base64_of_nothing_and_of_one() {
    assert_eq!(base64(b""), "");
    assert_eq!(base64(b"M"), "TQ==");
    assert_eq!(base64(&[0xff, 0xef, 0xbe]), "/+++");
}

#[test]
fn a_hash_is_twelve_characters_or_none() {
    assert_eq!(user_choice_hash(""), "");
    assert_eq!(user_choice_hash("ab"), "");
    assert_eq!(user_choice_hash("abc").len(), 12);
    let h = user_choice_hash(".jpgs-1-5-21-1glint.image01d9c8f000000000");
    assert_eq!(h.len(), 12);
    assert!(h.ends_with('='));
    assert_ne!(h, user_choice_hash(".pngs-1-5-21-1glint.image01d9c8f000000000"));
}

#[test]
fn one_text_a_minute() {
    let t = 133_000_000_000_000_000u64;
    let t = t - t % 600_000_000;
    assert_eq!(minute(t), minute(t + 599_999_999));
    assert_ne!(minute(t), minute(t + 600_000_000));
    assert_eq!(minute(t), format!("{:08x}{:08x}", t >> 32, t & 0xffff_ffff));
    assert_eq!(minute(0), "0000000000000000");
}

#[test]
fn the_choice_is_written_in_three_steps() {
    let ops = write_user_choice(".JPG", "s-1-5-21-7", 133_000_000_000_000_000);
    assert_eq!(ops.len(), 3);
    let key = user_choice_key(".JPG");
    assert!(key.ends_with("\\FileExts\\.JPG\\UserChoice"));
    assert!(matches!(&ops[0], RegOp::DeleteKey { key: k } if *k == key));
    assert!(matches!(&ops[1], RegOp::SetText { name: Some(n), value, .. } if n == "ProgId" && value == PROGID));
    // The hash is taken over the text in lower case.
    let base = format!(
        "{}{}{}{}{}",
        ".jpg",
        "s-1-5-21-7",
        "glint.image",
        minute(133_000_000_000_000_000),
        "user choice set via windows user experience {d18b6dd5-6124-4341-9318-804003bafa0b}"
    );
    let hash = user_choice_hash(&base);
    assert!(matches!(&ops[2], RegOp::SetText { name: Some(n), value, .. } if n == "Hash" && *value == hash));
}

#[test]
fn the_sid_is_in_lower_case() {
    assert_eq!(user_sid(&units("S-1-5-21-ÄB")), "s-1-5-21-äb");
}

#[test]
fn a_value_that_is_read() {
    let found = Found { code: 0, units: units("abc\0\0"), bytes: 8 };
    assert_eq!(get(&found), Some("abc".to_string()));
    assert!(autostart(&found));
    let none = Found { code: 2, units: Vec::new(), bytes: 0 };
    assert_eq!(get(&none), None);
    assert!(!autostart(&none));
    let empty = Found { code: 0, units: units("\0"), bytes: 0 };
    assert_eq!(get(&empty), Some(String::new()));
    // A lone surrogate does not spell a character.
    let odd = Found { code: 0, units: vec![0x61, 0xd800, 0], bytes: 6 };
    assert_eq!(get(&odd), Some("a\u{fffd}".to_string()));
    let halves = Found { code: 0, units: vec![0xdc00, 0xd83d, 0xde00, 0xd83d, 0x62, 0], bytes: 12 };
    assert_eq!(get(&halves), Some("\u{fffd}\u{1f600}\u{fffd}b".to_string()));
}

#[test]
fn autostart_reads_back() {
    let exe = "C:\\ü\u{1f600}\\glint.exe";
    let value = match set_autostart(true, exe) {
        RegOp::SetText { value, .. } => value,
        _ => panic!("a value is set"),
    };
    let mut u = units(&value);
    u.push(0);
    let bytes = 2 * u.len() as u32;
    u.resize(READ_UNITS, 0);
    let found = Found { code: 0, units: u, bytes };
    assert!(autostart(&found));
    assert_eq!(get(&found), Some(format!("\"{exe}\" --background")));
}

fn unbase64(s: &str) -> Vec<u8> {
    let number = |c: u8| match c {
        b'A'..=b'Z' => c - b'A',
        b'a'..=b'z' => c - b'a' + 26,
        b'0'..=b'9' => c - b'0' + 52,
        b'+' => 62,
        _ => 63,
    };
    let mut out = Vec::new();
    for q in s.as_bytes().chunks(4) {
        let n = q.iter().fold(0u32, |n, c| n * 64 + if *c == b'=' { 0 } else { number(*c) as u32 });
        let kept = 3 - q.iter().filter(|c| **c == b'=').count();
        out.extend_from_slice(&n.to_be_bytes()[1..1 + kept]);
    }
    out
}

#[test]
fn base64_returns_and_concatenates() {
    let all: Vec<u8> = (0..=255).collect();
    for n in [0, 1, 2, 3, 4, 5, 255, 256] {
        assert_eq!(unbase64(&base64(&all[..n])), all[..n].to_vec());
    }
    assert_eq!(base64(&all[..50]), base64(&all[..33]) + &base64(&all[33..50]));
}

#[test]
fn the_default_is_ours_or_not() {
    let mut u = units(PROGID);
    u.push(0);
    let n = u.len() as u32;
    assert!(is_default(0, &u, n));
    assert!(!is_default(-1, &u, n));
    assert!(!is_default(0, &u, n - 1));
    assert!(is_ours(Some("Glint.Image")));
    assert!(!is_ours(Some("Paint.Picture")));
    assert!(!is_ours(None));
}

#[test]
fn autostart_is_set_and_taken_back() {
    match set_autostart(true, "C:\\g\\glint.exe") {
        RegOp::SetText { key, name, value } => {
            assert_eq!(key, RUN);
            assert_eq!(name, Some("Glint".to_string()));
            assert_eq!(value, "\"C:\\g\\glint.exe\" --background");
        }
        _ => panic!("a value is set"),
    }
    assert!(matches!(set_autostart(false, "x"), RegOp::DeleteValue { key, name } if key == RUN && name == "Glint"));
}

#[test]
fn registering_and_taking_out() {
    let none = [false; 20];
    let on = set_default(true, "C:\\g.exe", &none);
    assert_eq!(on.len(), 50);
    assert!(matches!(&on[0], RegOp::SetText { key, name: None, value } if key == "Software\\Classes\\Glint.Image" && value == "Image"));
    assert!(matches!(&on[2], RegOp::SetText { value, .. } if value == "\"C:\\g.exe\" \"%1\""));
    assert!(matches!(&on[5], RegOp::SetText { name: Some(n), value, .. } if n == "DelegateExecute" && value == "{5A2F9C3E-7B41-4D8E-9C6A-1E2B3C4D5F60}"));
    let off = set_default(false, "C:\\g.exe", &none);
    assert_eq!(off.len(), 25);
    let mut ours = [false; 20];
    ours[4] = true;
    let off = set_default(false, "C:\\g.exe", &ours);
    assert_eq!(off.len(), 26);
    assert!(matches!(&off[0], RegOp::DeleteKey { key } if *key == user_choice_key(".png")));
    // What is written under a tree, or as a value, goes again.
    for op in &on {
        let (k, n) = match op {
            RegOp::SetText { key, name, .. } => (key.clone(), name.clone()),
            _ => panic!("only texts are written"),
        };
        assert!(off.iter().any(|o| match o {
            RegOp::DeleteTree { key } => k == *key || k.starts_with(&format!("{key}\\")),
            RegOp::DeleteValue { key, name } => k == *key && n.as_deref() == Some(name.as_str()),
            _ => false,
        }));
    }
}

#[test]
fn the_choice_is_tried_twice() {
    assert!(choosing(false, 0, false) == Choosing::Page);
    assert!(choosing(true, 0, false) == Choosing::Write);
    assert!(choosing(true, 1, false) == Choosing::Write);
    assert!(choosing(true, 1, true) == Choosing::Taken);
    assert!(choosing(true, 2, true) == Choosing::Taken);
    assert!(choosing(true, 2, false) == Choosing::Page);
}

#[test]
fn values_as_bytes() {
    let (ty, b) = value_bytes(&set_autostart(true, "é")).unwrap();
    assert_eq!(ty, REG_SZ);
    let text: Vec<u8> = "\"é\" --background\0".encode_utf16().flat_map(|u| u.to_le_bytes()).collect();
    assert_eq!(b, text);
    assert_eq!(value_bytes(&set_dword("k", "n", 0x0102_0304)), Some((REG_DWORD, vec![4, 3, 2, 1])));
    assert_eq!(value_bytes(&set_autostart(false, "x")), None);
    assert_eq!(REG_SZ, windows_sys::Win32::System::Registry::REG_SZ);
    assert_eq!(REG_DWORD, windows_sys::Win32::System::Registry::REG_DWORD);
}

#[test]
fn a_write_that_fails_says_so() {
    assert_eq!(written("Software\\X", 0), Ok(()));
    assert_eq!(written("Software\\X", 5), Err("registry Software\\X: error 5".to_string()));
}

#[test]
fn a_negative_code_is_an_error() {
    assert_eq!(check(0, "x"), Ok(()));
    assert_eq!(check(1, "x"), Ok(()));
    assert_eq!(check(-2147467259, "decoder"), Err("decoder: 0x80004005".to_string()));
    assert_eq!(check(-1, "decoder"), Err("decoder: 0xFFFFFFFF".to_string()));
}

#[test]
fn identifiers() {
    assert!(is_id(&id(CLSID), CLSID));
    assert!(!is_id(&id(CLSID), CLSID + 1));
    assert!(!is_id(&id(CLSID), CLSID ^ (1 << 120)));
    assert!(eq(&id(IID_IUNKNOWN), &id(IID_IUNKNOWN)));
    assert!(!eq(&id(IID_IUNKNOWN), &id(IID_ICLASS_FACTORY)));
    assert!(!eq(&id(7), &id(7 + (1 << 8))));
}

#[test]
fn a_command_is_asked_for_its_faces() {
    let mut c = Command::new();
    let a = c.query(&id(IID_IEXECUTE_COMMAND), true);
    assert!(a.hr == S_OK && a.out == Given::Pointer(Face::Execute));
    assert_eq!(c.refs, 2);
    let a = c.query(&id(IID_IOBJECT_WITH_SELECTION), true);
    assert!(a.out == Given::Pointer(Face::Selection));
    let a = c.query(&id(IID_ICLASS_FACTORY), true);
    assert!(a.hr == E_NOINTERFACE && a.out == Given::Null);
    let a = c.query(&id(IID_IUNKNOWN), false);
    assert!(a.hr == E_POINTER && a.out == Given::Nowhere);
    assert_eq!(c.refs, 3);
    assert_eq!(c.add_ref(), 4);
    assert_eq!(c.release(), 3);
    assert_eq!(c.set_selection(Some(vec![65, 66])), S_OK);
    assert_eq!(c.set_selection(None), S_OK);
    assert_eq!(c.execute(), Some(vec![65, 66]));
    assert_eq!(c.execute(), None);
    assert!(get_selection(true).out == Given::Null && get_selection(false).hr == E_NOINTERFACE);
}

#[test]
fn the_factory_makes_commands() {
    assert!(factory_query(&id(IID_ICLASS_FACTORY), true).out == Given::Pointer(Face::Factory));
    assert_eq!(factory_query(&id(IID_IEXECUTE_COMMAND), true).hr, E_NOINTERFACE);
    assert_eq!(factory_query(&id(IID_IUNKNOWN), false).hr, E_POINTER);
    let (a, c) = factory_create(false, &id(IID_IEXECUTE_COMMAND), true);
    assert_eq!(a.hr, S_OK);
    assert_eq!(c.map(|c| c.refs), Some(1));
    let (a, c) = factory_create(true, &id(IID_IEXECUTE_COMMAND), true);
    assert!(a.hr == CLASS_E_NOAGGREGATION && c.is_none());
    let (a, c) = factory_create(false, &id(5), true);
    assert!(a.hr == E_NOINTERFACE && c.is_none());
}

/// Makes `n` changes, of which one may fail: how many were made, and what they came to.
fn make(n: usize, fails: Option<usize>) -> (usize, Result<(), String>) {
    let (mut last, mut made) = (None, 0);
    loop {
        match applying(n, last) {
            Applying::Write(i) => {
                assert_eq!(i, made);
                made += 1;
                last = Some((i, if fails == Some(i) { Err(format!("no {i}")) } else { Ok(()) }));
            }
            Applying::Done(r) => return (made, r),
        }
    }
}

#[test]
fn the_first_failure_ends_it() {
    assert_eq!(make(0, None), (0, Ok(())));
    assert_eq!(make(5, None), (5, Ok(())));
    assert_eq!(make(5, Some(0)), (1, Err("no 0".to_string())));
    assert_eq!(make(5, Some(2)), (3, Err("no 2".to_string())));
    assert_eq!(make(5, Some(4)), (5, Err("no 4".to_string())));
}

/// Makes the program the default: changes made, rounds, whether the page was opened, and the answer.
fn default(sid: bool, fails: Option<usize>, taken: [bool; 2]) -> (usize, u8, bool, Result<bool, String>) {
    let n = set_default(true, "C:\\g.exe", &[false; 20]).len();
    let (mut did, mut made, mut rounds, mut page) = (Did::Nothing, 0, 0u8, false);
    loop {
        did = match make_default(n, sid, did) {
            Making::Register(i) => {
                made += 1;
                Did::Registered(i, if fails == Some(i) { Err("denied".to_string()) } else { Ok(()) })
            }
            Making::Choose => {
                rounds += 1;
                Did::Chose { rounds, taken: taken[rounds as usize - 1] }
            }
            Making::Page => {
                page = true;
                Did::Paged
            }
            Making::Answer(a) => return (made, rounds, page, a),
        };
    }
}

#[test]
fn the_default_is_checked() {
    let n = set_default(true, "C:\\g.exe", &[false; 20]).len();
    assert_eq!(default(true, None, [true, true]), (n, 1, false, Ok(true)));
    assert_eq!(default(true, None, [false, true]), (n, 2, false, Ok(true)));
    assert_eq!(default(true, None, [false, false]), (n, 2, true, Ok(false)));
    assert_eq!(default(false, None, [true, true]), (n, 0, true, Ok(false)));
    assert_eq!(default(true, Some(3), [true, true]), (4, 0, false, Err("denied".to_string())));
}
