use thumbcache::errors::EngineError;
use thumbcache::pixels::normalize_pixels;

#[test]
fn all_zero_alpha_is_forced_opaque_after_channel_swap() {
    // 2x1, native order with red and blue swapped, every alpha byte zero
    let raw = vec![0u8, 0, 255, 0, 0, 0, 255, 0];
    let out = normalize_pixels(2, 1, raw, true, false).unwrap();
    assert_eq!(out, vec![255u8, 0, 0, 255, 255, 0, 0, 255]);
}

#[test]
fn one_opaque_pixel_keeps_partial_transparency_untouched() {
    // second pixel carries alpha, so no forcing; only the channel swap acts
    let raw = vec![1u8, 2, 3, 0, 5, 6, 7, 9];
    let out = normalize_pixels(2, 1, raw, true, false).unwrap();
    assert_eq!(out, vec![3u8, 2, 1, 0, 7, 6, 5, 9]);
}

#[test]
fn no_swap_leaves_channels_in_place() {
    let raw = vec![1u8, 2, 3, 4];
    let out = normalize_pixels(1, 1, raw.clone(), false, false).unwrap();
    assert_eq!(out, raw);
}

#[test]
fn bottom_up_rows_are_flipped_top_down() {
    // 1x2: row 0 = [1,2,3,9], row 1 = [5,6,7,9]; bottom-up input
    let raw = vec![1u8, 2, 3, 9, 5, 6, 7, 9];
    let out = normalize_pixels(1, 2, raw, false, true).unwrap();
    assert_eq!(out, vec![5u8, 6, 7, 9, 1, 2, 3, 9]);
}

#[test]
fn flip_and_swap_and_alpha_forcing_compose() {
    // 1x2 bottom-up, swapped channels, all alpha zero
    let raw = vec![10u8, 20, 30, 0, 40, 50, 60, 0];
    let out = normalize_pixels(1, 2, raw, true, true).unwrap();
    assert_eq!(out, vec![60u8, 50, 40, 255, 30, 20, 10, 255]);
}

#[test]
fn length_mismatch_is_rejected() {
    let raw = vec![0u8; 7];
    assert_eq!(normalize_pixels(2, 1, raw, true, false), Err(EngineError::BufferShapeMismatch));
    let raw2 = vec![0u8; 8];
    assert_eq!(normalize_pixels(3, 1, raw2, true, false), Err(EngineError::BufferShapeMismatch));
}

#[test]
fn empty_buffer_for_zero_dimensions_is_accepted() {
    let out = normalize_pixels(0, 0, Vec::new(), true, true).unwrap();
    assert!(out.is_empty());
}
