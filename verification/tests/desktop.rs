use win_app_switcher::desktop::{
    copy_wstr, coverage_to_alpha, glyph_layout, ink_bbox, update_check_due, version,
};
use win_app_switcher::ui::{kb_select, selection, Selection};

#[test]
fn version_prefers_the_release_tag() {
    assert_eq!(version("v1.2.3", "ab1c4c38"), "v1.2.3");
    assert_eq!(version("", "ab1c4c38-dirty"), "ab1c4c38-dirty");
    assert!(update_check_due("v1.2.3", true));
    assert!(!update_check_due("v1.2.3", false));
    assert!(!update_check_due("", true));
}

#[test]
fn copy_wstr_truncates_and_keeps_the_final_nul() {
    let mut field = [0u16; 4];
    copy_wstr(&mut field, "abcdef");
    assert_eq!(field, [97, 98, 99, 0]);
    let mut field = [7u16; 6];
    copy_wstr(&mut field, "hi");
    assert_eq!(field, [104, 105, 7, 7, 7, 7]);
    // Characters outside the BMP take two units.
    let mut field = [0u16; 8];
    copy_wstr(&mut field, "a\u{1F600}é");
    let expected: Vec<u16> = "a\u{1F600}é".encode_utf16().collect();
    assert_eq!(&field[..4], &expected[..]);
    assert_eq!(field[4], 0);
    let mut one = [9u16; 1];
    copy_wstr(&mut one, "x");
    assert_eq!(one, [9]);
}

#[test]
fn ink_bbox_spans_the_non_white_pixels() {
    let white = 0xFFFF_FFFFu32;
    let mut canvas = vec![white; 4 * 3];
    assert_eq!(ink_bbox(&canvas, 4), None);
    canvas[1 * 4 + 2] = 0xFF00_0000; // (2, 1)
    canvas[2 * 4 + 1] = 0x0000_00FE; // (1, 2)
    assert_eq!(ink_bbox(&canvas, 4), Some((1, 1, 2, 2)));
    assert_eq!(ink_bbox(&[], 0), None);
}

#[test]
fn glyph_layout_centers_the_ink() {
    // A 16 px icon whose ink at em 16 spans columns 2..=13 and rows 4..=11.
    let (em, dx, dy) = glyph_layout(16, (2, 4, 13, 11));
    assert_eq!(em, 16 * 14 / 12);
    assert_eq!(dx, (16 - 12 * em / 16) / 2 - 2 * em / 16);
    assert_eq!(dy, (16 - 8 * em / 16) / 2 - 4 * em / 16);
}

#[test]
fn coverage_becomes_alpha() {
    let mut px = [0xFFFF_FFFFu32, 0xFF00_0000, 0x0000_0080];
    coverage_to_alpha(&mut px);
    assert_eq!(px, [0, 0xFF00_0000, 0x7F00_0000]);
}

#[test]
fn selection_follows_whichever_moved_last() {
    let mut dlg = None;
    assert!(!kb_select(&mut dlg, 3));
    assert_eq!(selection(&dlg), 0);
    let mut d = Selection::new(2, (10, 10));
    assert_eq!(selection(&Some(d)), 2);
    assert!(!d.mouse_move((10, 10), true, 5), "a still cursor changes nothing");
    assert_eq!(selection(&Some(d)), 2);
    assert!(d.mouse_move((11, 10), true, 2), "first real move takes over");
    assert!(!d.mouse_move((12, 10), true, 2));
    assert!(d.mouse_move((200, 10), true, 4));
    assert!(!d.mouse_move((-5, 10), false, 0), "outside the panel");
    let mut dlg = Some(d);
    assert_eq!(selection(&dlg), 4);
    assert!(kb_select(&mut dlg, 1));
    assert_eq!(selection(&dlg), 1);
}
