use sarpro::padding::add_padding_to_square;
use sarpro::resize::{
    calculate_resize_dimensions, promote_u8_to_u16, resize_image_data, resize_image_data_with_meta,
    resize_u16_image, resize_u8_image,
};
use sarpro::{BitDepth, Error};

#[test]
fn padding_wide_grid_to_square() {
    let cols = 100;
    let rows = 50;
    let data: Vec<u8> = (0..cols * rows).map(|i| (i % 251) as u8 + 1).collect();
    let (padded, none16) = add_padding_to_square(&data, None, cols, rows, BitDepth::U8).unwrap();
    assert!(none16.is_none());
    assert_eq!(padded.len(), 100 * 100);
    for r in 0..100 {
        for c in 0..100 {
            let v = padded[r * 100 + c];
            if (25..75).contains(&r) {
                assert_eq!(v, data[(r - 25) * cols + c]);
            } else {
                assert_eq!(v, 0);
            }
        }
    }
}

#[test]
fn padding_tall_grid_centers_columns() {
    let data: Vec<u16> = vec![7; 3 * 6];
    let (empty8, padded) = add_padding_to_square(&[], Some(&data), 3, 6, BitDepth::U16).unwrap();
    assert!(empty8.is_empty());
    let padded = padded.unwrap();
    assert_eq!(padded.len(), 36);
    for r in 0..6 {
        let row: Vec<u16> = padded[r * 6..r * 6 + 6].to_vec();
        assert_eq!(row, vec![0, 7, 7, 7, 0, 0]);
    }
}

#[test]
fn padding_u16_without_band_fails() {
    let r = add_padding_to_square(&[], None, 4, 2, BitDepth::U16);
    assert_eq!(r, Err(Error::MissingBand));
}

#[test]
fn resize_dimensions_scale_short_side() {
    assert_eq!(calculate_resize_dimensions(1000, 500, 250), (250, 125));
    assert_eq!(calculate_resize_dimensions(500, 1000, 250), (125, 250));
    assert_eq!(calculate_resize_dimensions(3, 2, 2), (2, 1));
    assert_eq!(calculate_resize_dimensions(4, 1, 2), (2, 1));
    assert_eq!(calculate_resize_dimensions(7, 7, 5), (5, 5));
}

#[test]
fn resize_dimensions_never_upsample() {
    assert_eq!(calculate_resize_dimensions(100, 50, 400), (100, 50));
    assert_eq!(calculate_resize_dimensions(100, 50, 101), (100, 50));
    assert_eq!(calculate_resize_dimensions(100, 50, 100), (100, 50));
}

#[test]
fn oversized_target_passes_data_through() {
    let data: Vec<u8> = (0..20).map(|i| i as u8 * 3).collect();
    let (u8v, u16v, g) =
        resize_image_data_with_meta(&data, None, 5, 4, Some(50), BitDepth::U8, false).unwrap();
    assert_eq!(u8v, data);
    assert!(u16v.is_none());
    assert_eq!((g.final_cols, g.final_rows, g.scaled_cols, g.scaled_rows), (5, 4, 5, 4));
    assert_eq!((g.pad_left, g.pad_top), (0, 0));
    assert!(!g.resampled);
}

#[test]
fn resize_then_pad_records_geometry() {
    let data: Vec<u8> = vec![100; 8 * 4];
    let (u8v, _, g) =
        resize_image_data_with_meta(&data, None, 8, 4, Some(4), BitDepth::U8, true).unwrap();
    assert!(g.resampled);
    assert_eq!((g.scaled_cols, g.scaled_rows), (4, 2));
    assert_eq!((g.final_cols, g.final_rows), (4, 4));
    assert_eq!((g.pad_left, g.pad_top), (0, 1));
    assert_eq!(u8v.len(), 16);
    assert_eq!(&u8v[0..4], &[0, 0, 0, 0]);
    assert_eq!(&u8v[12..16], &[0, 0, 0, 0]);
    assert!(u8v[4..12].iter().all(|&v| v == 100));
}

#[test]
fn resize_image_data_u16_requires_band() {
    let r = resize_image_data(&[], None, 4, 4, None, BitDepth::U16, false);
    assert_eq!(r, Err(Error::MissingBand));
}

#[test]
fn resize_image_data_without_target_copies() {
    let data: Vec<u16> = vec![1, 2, 3, 4, 5, 6];
    let (c, r, u8v, u16v) =
        resize_image_data(&[], Some(&data), 3, 2, None, BitDepth::U16, false).unwrap();
    assert_eq!((c, r), (3, 2));
    assert!(u8v.is_empty());
    assert_eq!(u16v, Some(data));
}

#[test]
fn lanczos_resize_shrinks_constant_grid() {
    let data: Vec<u8> = vec![77; 64];
    let out = resize_u8_image(&data, 8, 8, 4, 4).unwrap();
    assert_eq!(out.len(), 16);
    assert!(out.iter().all(|&v| v == 77));
}

#[test]
fn u16_resize_goes_through_eight_bits() {
    let data: Vec<u16> = vec![1000; 16];
    let out = resize_u16_image(&data, 4, 4, 2, 2).unwrap();
    assert_eq!(out, vec![0; 4]);
    let ramp: Vec<u16> = (0..16).map(|i| if i % 4 < 2 { 0 } else { 65535 }).collect();
    let out = resize_u16_image(&ramp, 4, 4, 4, 2).unwrap();
    assert_eq!(out.len(), 8);
    assert!(out.iter().all(|&v| v % 256 == 0));
}

#[test]
fn promote_shifts_into_high_byte() {
    assert_eq!(promote_u8_to_u16(&[0, 1, 255]), vec![0, 256, 65280]);
}
