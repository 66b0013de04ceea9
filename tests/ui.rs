use xtabbie::icons::BwIcon;
use xtabbie::log::{is_enabled, LogSettings};
use xtabbie::ui::{
    calculate_layout, cell_origin, grid_rows, icon_ink_points, icon_placement, title_row_y, truncate_title, window_height,
    ICON_SIZE, MAX_COLS, PADDING,
};

#[test]
fn layout_fits_count() {
    let l = calculate_layout(1920, 5);
    assert_eq!(l.cols, 5);
    assert_eq!(l.icon_size, ICON_SIZE);
    assert_eq!(l.padding, PADDING);
    assert_eq!(l.win_width, 5 * 56 + 8);
}

#[test]
fn layout_caps_at_max_columns() {
    let l = calculate_layout(1920, 100);
    assert_eq!(l.cols, MAX_COLS);
    assert_eq!(l.win_width, 20 * 56 + 8);
}

#[test]
fn layout_caps_by_screen_width() {
    // 640 * 4 / 5 = 512; (512 - 8) / 56 = 9
    let l = calculate_layout(640, 15);
    assert_eq!(l.cols, 9);
    assert_eq!(l.win_width, 9 * 56 + 8);
}

#[test]
fn layout_tiny_screen_and_zero_windows() {
    assert_eq!(calculate_layout(0, 3).cols, 1);
    assert_eq!(calculate_layout(5, 3).cols, 1);
    assert_eq!(calculate_layout(1920, 0).cols, 1);
    assert_eq!(calculate_layout(65535, usize::MAX).cols, 20);
}

#[test]
fn layout_columns_in_bounds() {
    for w in [0u16, 9, 10, 80, 100, 640, 1024, 1920, 65535] {
        for n in 1usize..30 {
            let c = calculate_layout(w, n).cols as usize;
            assert!(c >= 1 && c <= n.min(20));
        }
    }
}

#[test]
fn rows_and_cells() {
    let l = calculate_layout(640, 15);
    assert_eq!(grid_rows(&l, 15), 2);
    assert_eq!(grid_rows(&l, 9), 1);
    assert_eq!(grid_rows(&l, 0), 1);
    assert_eq!(cell_origin(&l, 0), (8, 8));
    assert_eq!(cell_origin(&l, 10), (8 + 56, 8 + 56));
    assert_eq!(title_row_y(&l, 2), 2 * 56 + 8);
    assert_eq!(window_height(&l, 15), 2 * 56 + 8 + 24);
    assert_eq!(window_height(&l, 3), 56 + 8 + 24);
}

#[test]
fn titles_are_cut_with_ellipsis() {
    // 70 pixels hold 10 bytes.
    assert_eq!(truncate_title("short", 70), "short");
    assert_eq!(truncate_title("abcdefghij", 70), "abcdefghij");
    assert_eq!(truncate_title("abcdefghijk", 70), "abcdefg...");
    assert_eq!(truncate_title("abc", 7), "...");
}

#[test]
fn titles_are_measured_in_bytes() {
    // Eight two-byte characters are 16 bytes: too long for 10.
    let e8 = "\u{e9}".repeat(8);
    assert_eq!(truncate_title(&e8, 70), "\u{e9}\u{e9}\u{e9}...");
    // Five of them (10 bytes) fit exactly.
    let e5 = "\u{e9}".repeat(5);
    assert_eq!(truncate_title(&e5, 70), e5);
    // The cut never splits a character: 1 byte of room keeps nothing of "é".
    assert_eq!(truncate_title("\u{e9}\u{e9}\u{e9}\u{e9}\u{e9}", 28), "...");
    // "aé" with 2 bytes of room keeps only "a".
    assert_eq!(truncate_title("a\u{e9}xxxxx", 35), "a...");
}

#[test]
fn icon_is_centred_in_its_cell() {
    assert_eq!(icon_placement(8, 8, 48, 48), ((8, 8), (6, 6, 52)));
    assert_eq!(icon_placement(10, 20, 48, 32), ((18, 28), (16, 26, 36)));
    assert_eq!(icon_placement(10, 20, 48, 51), ((9, 19), (7, 17, 55)));
}

#[test]
fn ink_points_in_row_order() {
    let icon = BwIcon { width: 3, height: 2, data: vec![true, false, false, false, true, true] };
    assert_eq!(icon_ink_points(&icon), vec![(0, 0), (1, 1), (2, 1)]);
    let short = BwIcon { width: 2, height: 2, data: vec![false, true] };
    assert_eq!(icon_ink_points(&short), vec![(1, 0)]);
}

#[test]
fn log_switch() {
    assert!(is_enabled(&LogSettings::new(true)));
    assert!(!is_enabled(&LogSettings::new(false)));
}
