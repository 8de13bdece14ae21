use glint::com::Guid;
use glint::turn::{dims, turn, uv_transform};
use glint::ui::{blend, canvas};
use glint::wic::{
    crop, decode_size, depth, embedded, make_opaque, mend_alpha, orientation, preview, row_bytes, shrink, shrinks,
    shrunk_size, small_size, some_size, stand_in, to_pbgra, too_large, upright, way, whole, Band, Decode, Ids, Search,
    Source, Way, FMT_BGR24, FMT_BGR32, FMT_BGRA, FMT_GRAY8, FMT_PBGRA, VT_UI2,
};

fn id(v: u128) -> Guid {
    let g = windows_sys::core::GUID::from_u128(v);
    Guid { data1: g.data1, data2: g.data2, data3: g.data3, data4: g.data4 }
}

#[test]
fn orientations() {
    assert_eq!(orientation(true, VT_UI2, 6), 6);
    assert_eq!(orientation(true, VT_UI2, 0), 1);
    assert_eq!(orientation(true, VT_UI2, 9), 1);
    assert_eq!(orientation(true, 3, 6), 1);
    assert_eq!(orientation(false, VT_UI2, 6), 1);
    // Only the low byte counts.
    assert_eq!(orientation(true, VT_UI2, 0x0103), 3);
}

#[test]
fn a_preview_still_covers_the_screen() {
    assert_eq!(shrink(6000, 4000, (1920, 1080), 1), Some(2));
    assert_eq!(shrink(16000, 9000, (1920, 1080), 1), Some(8));
    assert_eq!(shrink(8000, 4500, (1920, 1080), 1), Some(4));
    assert_eq!(shrink(1920, 1080, (1920, 1080), 1), None);
    // Turned, the screen lies across the image.
    assert_eq!(shrink(4000, 2000, (500, 4000), 6), Some(4));
    assert_eq!(shrunk_size(6001, 4000, 2), (3001, 2000));
    assert!(shrinks(0, 3000, 2000, 6000));
    assert!(!shrinks(0, 6000, 4000, 6000));
    assert!(!shrinks(-1, 3000, 2000, 6000));
    assert!(!shrinks(0, 0, 2000, 6000));
}

#[test]
fn formats_of_a_codec() {
    assert_eq!(depth(&id(FMT_BGRA)), Some((4, true)));
    assert_eq!(depth(&id(FMT_BGR32)), Some((4, false)));
    assert_eq!(depth(&id(FMT_PBGRA)), Some((4, false)));
    assert_eq!(depth(&id(FMT_BGR24)), Some((3, false)));
    assert_eq!(depth(&id(FMT_GRAY8)), Some((1, false)));
    assert_eq!(depth(&id(1)), None);
    assert_eq!(row_bytes(5, 3), 16);
    assert_eq!(row_bytes(4, 4), 16);
    assert_eq!(row_bytes(1, 1), 4);
}

#[test]
fn pixels_become_premultiplied() {
    assert_eq!(to_pbgra(&[10, 20, 30, 0], 1, 1, 4, 3, false), vec![10, 20, 30, 255]);
    assert_eq!(to_pbgra(&[7, 9, 0, 0], 2, 1, 4, 1, false), vec![7, 7, 7, 255, 9, 9, 9, 255]);
    assert_eq!(to_pbgra(&[255, 128, 0, 128], 1, 1, 4, 4, true), vec![128, 64, 0, 128]);
    assert_eq!(to_pbgra(&[255, 128, 0, 0], 1, 1, 4, 4, false), vec![255, 128, 0, 255]);
    // Two rows, with padding between them.
    let raw = [1, 2, 3, 0, 4, 5, 6, 0];
    assert_eq!(to_pbgra(&raw, 1, 2, 4, 3, false), vec![1, 2, 3, 255, 4, 5, 6, 255]);
}

#[test]
fn alpha_left_at_zero_is_mended() {
    let mut px = vec![1, 2, 3, 0, 4, 5, 6, 0];
    mend_alpha(&mut px);
    assert_eq!(px, vec![1, 2, 3, 255, 4, 5, 6, 255]);
    let mut px = vec![1, 2, 3, 0, 4, 5, 6, 7];
    mend_alpha(&mut px);
    assert_eq!(px, vec![1, 2, 3, 0, 4, 5, 6, 7]);
    make_opaque(&mut px);
    assert_eq!(px, vec![1, 2, 3, 255, 4, 5, 6, 255]);
}

#[test]
fn bars_are_cut_away() {
    let px: Vec<u8> = (0..3 * 3).flat_map(|i| [i as u8; 4]).collect();
    let (w, h, out) = crop(&px, 3, 3, 3, 1);
    assert_eq!((w, h), (3, 1));
    assert_eq!(out, [[3u8; 4], [4; 4], [5; 4]].concat());
    let (w, h, out) = crop(&px, 3, 3, 1, 9);
    assert_eq!((w, h), (1, 3));
    assert_eq!(out, [[1u8; 4], [4; 4], [7; 4]].concat());
}

#[test]
fn a_thumbnail_stands_upright() {
    let t = upright(2, 4, vec![0; 32], 400, 200, 6, 9);
    assert_eq!((t.full_w, t.full_h, t.orient), (200, 400, 1));
    assert!(t.thumb && !t.full);
    let t = upright(4, 2, vec![0; 32], 400, 200, 3, 9);
    assert_eq!((t.full_w, t.full_h), (400, 200));
}

#[test]
fn sizes_that_are_not_taken() {
    assert_eq!(small_size(4096, 1), Ok(()));
    assert_eq!(small_size(4097, 1), Err("odd size".to_string()));
    assert_eq!(small_size(0, 1), Err("odd size".to_string()));
    assert_eq!(some_size(1, 1), Ok(()));
    assert_eq!(some_size(1, 0), Err("empty image".to_string()));
}

#[test]
fn how_a_file_is_decoded() {
    let screen = Some((1920, 1080));
    assert_eq!(way(6000, 4000, screen, 1, None), Way::Scaled { w: 3000, h: 2000 });
    assert_eq!(way(6001, 4001, screen, 1, None), Way::Scaled { w: 3001, h: 2001 });
    assert_eq!(way(6000, 4000, screen, 1, Some(true)), Way::Preview);
    // A codec that cannot scale, an image that is small enough, no screen: the image itself.
    assert_eq!(way(6000, 4000, screen, 1, Some(false)), Way::Whole);
    assert_eq!(way(1920, 1080, screen, 1, None), Way::Whole);
    assert_eq!(way(6000, 4000, None, 1, None), Way::Whole);
}

#[test]
fn an_image_is_shrunk_only_where_it_has_to_be() {
    assert!(!too_large(16384, 16384, 16384));
    assert!(too_large(16385, 1, 16384) && too_large(1, 16385, 16384));
    assert_eq!(decode_size(6000, 4000, 16384, (1, 1)), (6000, 4000));
    assert_eq!(decode_size(32768, 16384, 16384, (16384, 8192)), (16384, 8192));
    assert_eq!(decode_size(100_000, 2, 16384, (16384, 0)), (16384, 1));
}

#[test]
fn pictures_say_what_they_are() {
    let w = whole(2, 1, vec![1; 8], 4, 2, 6, 3);
    assert!(w.full && !w.thumb && w.px == vec![1; 8]);
    assert_eq!((w.w, w.h, w.full_w, w.full_h, w.orient, w.id), (2, 1, 4, 2, 6, 3));
    let p = preview(2, 1, vec![1; 8], 4, 2, 6, 3);
    assert!(!p.full && !p.thumb && p.px == vec![1; 8]);
    assert_eq!((p.w, p.h, p.full_w, p.full_h, p.orient, p.id), (2, 1, 4, 2, 6, 3));
}

#[test]
fn bands_of_a_decode_meet() {
    let mut d = Decode::new(10, 600);
    let mut end = 0;
    let mut rows = Vec::new();
    loop {
        match d.next(true) {
            Band::Copy { y, rows: n, at, bytes } => {
                assert_eq!(at, end);
                assert_eq!(at, y as u64 * 40);
                end = at + bytes;
                rows.push(n);
            }
            Band::Done => break,
            Band::Cancelled => panic!("it is wanted"),
        }
    }
    assert_eq!(rows, vec![256, 256, 88]);
    assert_eq!(end, 10 * 600 * 4);
    let mut d = Decode::new(10, 600);
    assert!(matches!(d.next(true), Band::Copy { .. }));
    assert!(matches!(d.next(false), Band::Cancelled));
}

#[test]
fn every_image_has_a_number_of_its_own() {
    let mut ids = Ids::new();
    let (a, b) = (ids.next_id(), ids.next_id());
    assert_ne!(a, b);
    let c = ids.next_id();
    assert!(0 < a && a < b && b < c);
}

#[test]
fn where_a_thumbnail_is_looked_for() {
    assert_eq!(stand_in(None, false), Search::Ask(Source::Cache));
    assert_eq!(stand_in(Some(Source::Cache), true), Search::Upright);
    assert_eq!(stand_in(Some(Source::Cache), false), Search::Ask(Source::Shell));
    assert_eq!(stand_in(Some(Source::Shell), true), Search::Upright);
    assert_eq!(stand_in(Some(Source::Shell), false), Search::Ask(Source::Embedded));
    assert_eq!(stand_in(Some(Source::Embedded), true), Search::Stored);
    assert_eq!(stand_in(Some(Source::Embedded), false), Search::Missing);
}

#[test]
fn an_embedded_thumbnail_is_stored_as_the_image_is() {
    let t = embedded(4, 2, vec![7; 32], 400, 200, 6, 9);
    assert_eq!((t.w, t.h, t.full_w, t.full_h, t.orient, t.id), (4, 2, 400, 200, 6, 9));
    assert!(t.thumb && !t.full && t.px == vec![7; 32]);
}

#[test]
fn turns_of_a_photo() {
    let t = uv_transform(1, 0);
    assert_eq!((t.xx, t.xy, t.yx, t.yy, t.x, t.y), (1, 0, 0, 1, 0, 0));
    let t = uv_transform(6, 0);
    assert_eq!((t.xx, t.xy, t.yx, t.yy, t.x, t.y), (0, 1, -1, 0, 0, 1));
    // A quarter turn by the user is what orientation 6 asks for.
    assert!(uv_transform(1, 1) == uv_transform(6, 0));
    assert!(uv_transform(1, 2) == uv_transform(3, 0));
    assert!(uv_transform(8, 1) == uv_transform(1, 0));
    for o in 0..=9u8 {
        assert!(uv_transform(o, 4) == uv_transform(o, 0));
    }
    assert_eq!(dims(400, 300, 1, 0), (400, 300));
    assert_eq!(dims(400, 300, 1, 1), (300, 400));
    assert_eq!(dims(400, 300, 6, 1), (400, 300));
    let mut r = 0;
    for _ in 0..4 {
        r = turn(r, false);
    }
    assert_eq!(r, 0);
    assert_eq!(turn(turn(2, false), true), 2);
}

#[test]
fn a_logo_is_laid_over_a_panel() {
    let mut dst = vec![100u8; 2 * 2 * 4];
    let src = vec![10, 20, 30, 255];
    blend(&mut dst, 2, &src, 1, 1, 1);
    // The panel's own alpha is left to its mask.
    assert_eq!(&dst[12..], &[10, 20, 30, 100]);
    assert_eq!(&dst[..12], &[100u8; 12]);
    // A clear pixel changes nothing.
    blend(&mut dst, 2, &vec![0, 0, 0, 0], 1, 0, 0);
    assert_eq!(&dst[..4], &[100u8; 4]);
}

#[test]
fn the_drawing_bitmap_only_grows() {
    assert_eq!(canvas(100, 100, 50, 50), None);
    assert_eq!(canvas(100, 50, 50, 80), Some((100, 80)));
    assert_eq!(canvas(0, 0, 10, 20), Some((10, 20)));
}
