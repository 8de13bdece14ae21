use glint::config::{placement_text, store, Config, Rgb, WindowMode, DEFAULT};
use glint::geom::{half_of, rect, Placement};
use glint::text::{
    chars_of, decimal_of, hex_of, join, lines, parse_hex128, parse_integer, parse_unsigned, signed_decimal_of, split,
    trim, wide,
};

fn chars(s: &str) -> Vec<char> {
    s.chars().collect()
}

#[test]
fn the_defaults() {
    let (c, write) = Config::load(None);
    assert!(write);
    assert_eq!(c.window, WindowMode::Maximized);
    assert!(c.wheel_zoom && c.wrap && c.info && c.resident && c.trim_memory);
    assert!(!c.upscale_small && !c.keep_zoom && !c.prefer_integrated && !c.implicit_layers && !c.setup_done);
    assert_eq!(c.background, Some(Rgb { r: 0x1b, g: 0x1b, b: 0x1b }));
    assert_eq!((c.prefetch_ahead, c.prefetch_behind), (4, 2));
    assert_eq!(c.placement, None);
    assert_eq!(c.colorref(), 0x1b1b1b);
    let (d, write) = Config::load(Some(DEFAULT));
    assert!(!write);
    assert_eq!(c, d);
}

#[test]
fn settings_that_are_read() {
    let (c, _) = Config::load(Some(
        "window = fullscreen # all of it\r\nwheel=navigate\nwrap = no\nbackground = ff8000\ngpu = integrated\nprefetch_ahead = 99\nprefetch_behind = x\nplacement = 1,2,300,400,1\nresident = on\n# info = false\n",
    ));
    assert_eq!(c.window, WindowMode::Fullscreen);
    assert!(!c.wheel_zoom && !c.wrap && c.prefer_integrated && c.resident && c.info);
    assert_eq!(c.background, Some(Rgb { r: 255, g: 128, b: 0 }));
    assert_eq!(c.colorref(), 0x0080ff);
    assert_eq!((c.prefetch_ahead, c.prefetch_behind), (32, 2));
    assert_eq!(c.placement, Some(Placement { rect: rect(1, 2, 300, 400), max: true }));
    let (c, _) = Config::load(Some("background = what\nplacement = 1,2,3\nwindow = normal"));
    assert_eq!(c.window, WindowMode::Normal);
    assert_eq!(c.placement, None);
}

#[test]
fn storing_keeps_the_rest() {
    let t = "# mine\nwrap = false\n\nbackground = 000000";
    let s = store(Some(t), "wrap", "true");
    assert_eq!(s, "# mine\nwrap = true\n\nbackground = 000000\n");
    let s = store(Some(&s), "setup_done", "true");
    assert!(s.ends_with("setup_done = true\n"));
    assert!(Config::load(Some(&s)).0.setup_done);
    let s = store(None, "resident", "false");
    assert!(s.starts_with("# Glint settings."));
    assert!(!Config::load(Some(&s)).0.resident);
}

#[test]
fn line_ends_stay_as_they_are() {
    assert_eq!(store(Some("x = 1\r\nwrap = true\r\n"), "wrap", "false"), "x = 1\r\nwrap = false\r\n");
    assert_eq!(store(Some("a\r\n# b\nwrap = true\r\nc\n"), "wrap", "false"), "a\r\n# b\nwrap = false\r\nc\n");
    // An added line ends as the others do, after one that has an end.
    assert_eq!(store(Some("x = 1\r\ny = 2"), "wrap", "true"), "x = 1\r\ny = 2\r\nwrap = true\r\n");
    assert_eq!(store(Some("x = 1\ny = 2\n"), "wrap", "true"), "x = 1\ny = 2\nwrap = true\n");
    assert_eq!(store(Some(""), "wrap", "true"), "wrap = true\n");
}

#[test]
fn the_last_store_counts() {
    let t = "# mine\r\nwrap = false\r\ninfo = false\r\n";
    for key in ["wrap", "info", "resident"] {
        let twice = store(Some(&store(Some(t), key, "true")), key, "false");
        assert_eq!(twice, store(Some(t), key, "false"));
    }
}

#[test]
fn other_settings_stay() {
    let t = "wrap = false\nbackground = 102030\nprefetch_ahead = 7";
    let before = Config::load(Some(t)).0;
    let after = Config::load(Some(&store(Some(t), "info", "false"))).0;
    assert!(before.info && !after.info);
    assert_eq!(Config { info: true, ..after }, before);
}

#[test]
fn a_placement_comes_back() {
    let p = Placement { rect: rect(-1200, -7, i32::MAX, i32::MIN), max: false };
    assert_eq!(placement_text(p), "-1200,-7,2147483647,-2147483648,0");
    let s = store(Some("wrap = true"), "placement", &placement_text(p));
    assert_eq!(Config::load(Some(&s)).0.placement, Some(p));
}

#[test]
fn texts_and_numbers() {
    assert_eq!(decimal_of(0), "0");
    assert_eq!(decimal_of(u64::MAX), "18446744073709551615");
    assert_eq!(signed_decimal_of(-40), "-40");
    assert_eq!(hex_of(0xbeef, 8, false), "0000beef");
    assert_eq!(hex_of(0xbeef, 4, true), "BEEF");
    assert_eq!(parse_unsigned(&chars("+12"), 10, 99), Some(12));
    assert_eq!(parse_unsigned(&chars("100"), 10, 99), None);
    assert_eq!(parse_unsigned(&chars(""), 10, 99), None);
    assert_eq!(parse_unsigned(&chars("fF"), 16, 255), Some(255));
    assert_eq!(parse_integer(&chars("-2147483648")), Some(i32::MIN));
    assert_eq!(parse_integer(&chars("2147483648")), None);
    assert_eq!(parse_hex128(&chars("ffffffffffffffffffffffffffffffff")), Some(u128::MAX));
    assert_eq!(parse_hex128(&chars("100000000000000000000000000000000")), None);
    assert_eq!(parse_hex128(&chars("+1G")), None);
    assert_eq!(parse_hex128(&chars("+")), None);
    assert_eq!(parse_hex128(&chars("0000000000000000000000000000000000001f")), Some(31));
    assert_eq!(trim(&chars("\t a b \u{3000}")), &chars("a b")[..]);
    assert_eq!(lines(&chars("a\r\nb\n\nc")).len(), 4);
    assert_eq!(split(&chars("a{b{"), '{').len(), 3);
    assert_eq!(join(&vec!["a".to_string(), "b".to_string(), "c".to_string()], "; "), "a; b; c");
    assert_eq!(join(&Vec::new(), "; "), "");
    assert_eq!(chars_of("×…"), vec!['×', '…']);
    assert_eq!(wide("a😀"), vec![0x61, 0xd83d, 0xde00, 0]);
    // Strings are put together a character at a time.
    assert_eq!(signed_decimal_of(i32::MIN), i32::MIN.to_string());
}

#[test]
fn halves_round_away_from_zero() {
    assert_eq!(half_of(5), 3);
    assert_eq!(half_of(4), 2);
    assert_eq!(half_of(-5), -3);
    assert_eq!(half_of(0), 0);
}
