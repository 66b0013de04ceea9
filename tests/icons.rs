use xtabbie::icons::{
    argb_is_ink, bytes_to_words, create_generic_icon, decode_icon, find_best_icon, BwIcon,
};

fn record(width: u32, height: u32, pixel: u32) -> Vec<u32> {
    let mut words = vec![width, height];
    for _ in 0..(width * height) {
        words.push(pixel);
    }
    words
}

fn to_bytes(words: &[u32]) -> Vec<u8> {
    let mut bytes = Vec::new();
    for w in words {
        bytes.extend_from_slice(&w.to_le_bytes());
    }
    bytes
}

#[test]
fn luminance_threshold_cases() {
    assert!(argb_is_ink(0xFF000000));
    assert!(!argb_is_ink(0xFFFFFFFF));
    assert!(!argb_is_ink(0x00000000));
}

#[test]
fn luminance_threshold_half_alpha() {
    // Black at alpha 128 blends to just under one half; at 127 just over.
    assert!(argb_is_ink(0x80000000));
    assert!(!argb_is_ink(0x7F000000));
    // Opaque mid grey: 127 on every channel is dark, 128 is light.
    assert!(argb_is_ink(0xFF7F7F7F));
    assert!(!argb_is_ink(0xFF808080));
    // Opaque pure red has luminance 0.299.
    assert!(argb_is_ink(0xFFFF0000));
}

#[test]
fn best_record_for_48_is_64() {
    let mut words = record(16, 16, 0xFFFFFFFF);
    words.extend(record(32, 32, 0xFFFFFFFF));
    words.extend(record(64, 64, 0xFF000000));
    let best = find_best_icon(&words, 48).unwrap();
    assert_eq!(best, (64, 64, 2 + 256 + 2 + 1024 + 2));

    let icon = decode_icon(&to_bytes(&words), 48).unwrap();
    assert_eq!(icon.width, 48);
    assert_eq!(icon.height, 48);
    assert_eq!(icon.data.len(), 48 * 48);
    assert!(icon.data.iter().all(|&b| b));
}

#[test]
fn best_record_tie_prefers_not_undersized() {
    // 40 and 56 are both 16 from 48 on each side; the wider one wins.
    let mut words = record(40, 40, 0xFFFFFFFF);
    words.extend(record(56, 56, 0xFF000000));
    assert_eq!(find_best_icon(&words, 48).unwrap().0, 56);
    let mut words = record(56, 56, 0xFF000000);
    words.extend(record(40, 40, 0xFFFFFFFF));
    assert_eq!(find_best_icon(&words, 48).unwrap().0, 56);
}

#[test]
fn truncated_trailing_record_is_ignored() {
    let mut words = record(2, 2, 0xFF000000);
    words.extend([10, 10, 0xFF000000]);
    assert_eq!(find_best_icon(&words, 48), Some((2, 2, 2)));
    let icon = decode_icon(&to_bytes(&words), 4).unwrap();
    assert_eq!(icon.data, vec![true; 16]);
}

#[test]
fn zero_sized_trailing_record_is_ignored() {
    let mut words = record(1, 1, 0xFFFFFFFF);
    words.extend([0, 5, 1, 2, 3, 4, 5]);
    assert_eq!(find_best_icon(&words, 48), Some((1, 1, 2)));
}

#[test]
fn empty_or_short_buffer_fails() {
    assert!(decode_icon(&[], 48).is_none());
    assert!(decode_icon(&to_bytes(&[1, 1]), 48).is_none());
    assert!(decode_icon(&to_bytes(&[0, 0, 0]), 48).is_none());
    assert!(decode_icon(&to_bytes(&[3, 3, 0xFF000000]), 48).is_none());
}

#[test]
fn words_are_little_endian_and_tail_dropped() {
    let words = bytes_to_words(&[1, 2, 3, 4, 0xFF, 0, 0, 0, 9, 9]);
    assert_eq!(words, vec![0x04030201, 0xFF]);
}

#[test]
fn scale_nearest_neighbour() {
    let icon = BwIcon { width: 2, height: 2, data: vec![true, false, false, true] };
    let big = icon.scale(4);
    assert_eq!(big.width, 4);
    assert_eq!(big.height, 4);
    assert_eq!(
        big.data,
        vec![
            true, true, false, false, //
            true, true, false, false, //
            false, false, true, true, //
            false, false, true, true,
        ]
    );
}

#[test]
fn scale_out_of_range_samples_are_background() {
    let icon = BwIcon { width: 2, height: 2, data: vec![true] };
    let out = icon.scale(2);
    assert_eq!(out.data, vec![true, false, false, false]);
}

#[test]
fn scale_twice_equals_scale_once() {
    let icon = BwIcon {
        width: 3,
        height: 2,
        data: vec![true, false, true, false, true, true],
    };
    for size in [0u16, 1, 2, 5, 7] {
        let once = icon.scale(size);
        let twice = once.scale(size);
        assert_eq!(once.width, twice.width);
        assert_eq!(once.height, twice.height);
        assert_eq!(once.data, twice.data);
    }
}

#[test]
fn generic_icon_shape() {
    let icon = create_generic_icon(10);
    assert_eq!(icon.width, 10);
    assert_eq!(icon.height, 10);
    let at = |x: usize, y: usize| icon.data[y * 10 + x];
    // outer ring
    assert!(at(0, 5) && at(1, 5) && at(9, 5) && at(8, 5) && at(5, 9));
    // title band: rows below 2 + 10 / 5
    assert!(at(5, 2) && at(5, 3));
    // inner ring
    assert!(at(2, 6) && at(7, 6) && at(5, 7));
    // inside
    assert!(!at(4, 5) && !at(5, 4) && !at(3, 6) && !at(6, 6));
    assert_eq!(icon.data.iter().filter(|&&b| !b).count(), 12);
}

#[test]
fn generic_icon_small_sizes() {
    assert!(create_generic_icon(0).data.is_empty());
    assert_eq!(create_generic_icon(1).data, vec![true]);
    assert_eq!(create_generic_icon(3).data, vec![true; 9]);
}

#[test]
fn record_wider_than_65535_is_parsed_and_chosen() {
    let words = record(70000, 1, 0xFF000000);
    assert_eq!(find_best_icon(&words, 48), Some((70000, 1, 2)));
    let icon = decode_icon(&to_bytes(&words), 4).unwrap();
    assert_eq!(icon.width, 4);
    // Every destination row samples the single source row.
    assert_eq!(icon.data, vec![true; 16]);
}
