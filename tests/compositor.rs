use sarpro::synthetic_rgb::{
    create_synthetic_rgb, create_synthetic_rgb_by_mode, create_synthetic_rgb_by_mode_and_strategy,
    create_synthetic_rgb_enhanced, create_synthetic_rgb_rgb_ratio, create_synthetic_rgb_suppressed,
    create_synthetic_rgb_urban, suppression_floor, RgbTables,
};
use sarpro::{AutoscaleStrategy, Error, SyntheticRgbMode};

fn gamma_lut(gamma: f32) -> Vec<u8> {
    (0u16..=255)
        .map(|v| (((v as f32) / 255.0).powf(gamma) * 255.0).round().clamp(0.0, 255.0) as u8)
        .collect()
}

fn floor_curve(floor: u8, gamma: f32) -> Vec<u8> {
    let f = floor as f32;
    let denom = (255.0 - f).max(1.0);
    (0u16..=255)
        .map(|v| {
            if v as u8 <= floor {
                0
            } else {
                ((((v as f32) - f) / denom).powf(gamma) * 255.0).round().clamp(0.0, 255.0) as u8
            }
        })
        .collect()
}

#[test]
fn default_tables_match_gamma_curves() {
    let t = RgbTables::default_tables();
    assert_eq!(t.red, gamma_lut(0.7));
    assert_eq!(t.green, gamma_lut(0.9));
    assert_eq!(&t.red[0..8], &[0, 5, 9, 11, 14, 16, 18, 21]);
    assert_eq!((t.red[100], t.red[128], t.red[255]), (132, 157, 255));
    assert_eq!(&t.green[0..8], &[0, 2, 3, 5, 6, 7, 9, 10]);
    assert_eq!((t.green[100], t.green[128], t.green[255]), (110, 137, 255));
}

#[test]
fn default_blue_ratio_values() {
    let t = RgbTables::default_tables();
    let blue = |b1: usize, b2: usize| t.blue[(b1 << 8) | b2];
    assert_eq!(blue(255, 1), 99);
    assert_eq!(blue(1, 255), 41);
    assert_eq!(blue(128, 128), 62);
    assert_eq!(blue(200, 50), 70);
    assert_eq!(blue(50, 200), 56);
    assert_eq!(blue(211, 107), 65);
}

#[test]
fn blue_is_zero_where_second_band_is_zero() {
    let band1 = vec![0u8, 10, 128, 255];
    let band2 = vec![0u8, 0, 0, 0];
    let rgb = create_synthetic_rgb(&band1, &band2);
    assert_eq!(rgb.len(), 12);
    let red = gamma_lut(0.7);
    for i in 0..4 {
        assert_eq!(rgb[3 * i], red[band1[i] as usize]);
        assert_eq!(rgb[3 * i + 1], 0);
        assert_eq!(rgb[3 * i + 2], 0);
    }
}

#[test]
fn red_and_green_ignore_the_other_band() {
    let rgb_a = create_synthetic_rgb(&[200, 200], &[0, 90]);
    let rgb_b = create_synthetic_rgb(&[30, 200], &[90, 90]);
    assert_eq!(rgb_a[0], rgb_a[3]);
    assert_eq!(rgb_a[4], rgb_b[4]);
    assert_eq!(rgb_a[4], rgb_b[1]);
    assert_eq!(rgb_a[2], 0);
    assert_ne!(rgb_a[5], 0);
}

#[test]
fn every_mode_resolves_to_default() {
    let b1 = vec![12u8, 99, 250];
    let b2 = vec![0u8, 40, 251];
    let expected = create_synthetic_rgb(&b1, &b2);
    for mode in [
        SyntheticRgbMode::Default,
        SyntheticRgbMode::RgbRatio,
        SyntheticRgbMode::SarUrban,
        SyntheticRgbMode::Enhanced,
    ] {
        assert_eq!(create_synthetic_rgb_by_mode(mode, &b1, &b2), expected);
    }
}

#[test]
fn placeholder_modes_are_not_implemented() {
    assert_eq!(create_synthetic_rgb_rgb_ratio(&[1], &[2]), Err(Error::NotImplemented));
    assert_eq!(create_synthetic_rgb_urban(&[1], &[2]), Err(Error::NotImplemented));
    assert_eq!(create_synthetic_rgb_enhanced(&[1], &[2]), Err(Error::NotImplemented));
}

#[test]
fn water_floor_from_combined_histogram() {
    // 20 samples in all: the 5% target is 1 sample, first reached at level 0.
    let b1 = vec![0u8; 10];
    let b2 = vec![200u8; 10];
    assert_eq!(suppression_floor(&b1, &b2), 3);
    // 40 samples: target 2; levels 10 and 20 hold one each.
    let mut b1 = vec![10u8, 20];
    b1.extend(vec![250u8; 18]);
    let b2 = vec![250u8; 20];
    assert_eq!(suppression_floor(&b1, &b2), 23);
    // The floor is capped at 40.
    assert_eq!(suppression_floor(&[100u8; 10], &[100u8; 10]), 40);
    assert_eq!(suppression_floor(&[], &[]), 3);
}

#[test]
fn suppressed_composite_blacks_out_water() {
    let b1 = vec![0u8, 2, 3, 200, 3, 150];
    let b2 = vec![0u8, 3, 1, 3, 120, 160];
    let floor = suppression_floor(&b1, &b2);
    assert_eq!(floor, 3);
    let red = floor_curve(floor, 1.15);
    let green = floor_curve(floor, 1.10);
    let rgb = create_synthetic_rgb_suppressed(&b1, &b2);
    assert_eq!(&rgb[0..9], &[0; 9]);
    assert_eq!(rgb[9], red[200]);
    assert_eq!(rgb[10], 0);
    assert_eq!(rgb[12], 0);
    assert_eq!(rgb[13], green[120]);
    assert_eq!(rgb[15], red[150]);
    assert_eq!(rgb[16], green[160]);
    assert!(rgb[11] > 0 && rgb[17] > 0);
}

#[test]
fn stabilized_blue_values() {
    let b1 = vec![0u8, 255, 0];
    let b2 = vec![255u8, 0, 0];
    let floor = suppression_floor(&b1, &b2);
    assert_eq!(floor, 3);
    let rgb = create_synthetic_rgb_suppressed(&b1, &b2);
    assert_eq!(&rgb[0..3], &[0, 255, 32]);
    assert_eq!(&rgb[3..6], &[255, 0, 65]);
    assert_eq!(&rgb[6..9], &[0, 0, 0]);
}

#[test]
fn strategy_selects_suppressed_composite() {
    let b1 = vec![0u8, 2, 90, 200];
    let b2 = vec![1u8, 0, 100, 210];
    let suppressed = create_synthetic_rgb_suppressed(&b1, &b2);
    let default = create_synthetic_rgb(&b1, &b2);
    for s in [AutoscaleStrategy::Tamed, AutoscaleStrategy::Clahe] {
        let out = create_synthetic_rgb_by_mode_and_strategy(SyntheticRgbMode::Default, s, &b1, &b2);
        assert_eq!(out, suppressed);
    }
    for s in [
        AutoscaleStrategy::Standard,
        AutoscaleStrategy::Robust,
        AutoscaleStrategy::Adaptive,
        AutoscaleStrategy::Equalized,
        AutoscaleStrategy::Default,
    ] {
        let out = create_synthetic_rgb_by_mode_and_strategy(SyntheticRgbMode::Enhanced, s, &b1, &b2);
        assert_eq!(out, default);
    }
}

#[test]
fn suppressed_tone_curves_match_floor_shifted_gamma() {
    // Every level of both bands appears once: 512 samples, 5% target 26, first reached at
    // level 12, so the floor is 15.
    let b1: Vec<u8> = (0..=255).collect();
    let b2: Vec<u8> = (0..=255).rev().collect();
    let floor = suppression_floor(&b1, &b2);
    assert_eq!(floor, 15);
    let rgb = create_synthetic_rgb_suppressed(&b1, &b2);
    let red = floor_curve(floor, 1.15);
    let green = floor_curve(floor, 1.10);
    for i in 0..256 {
        let (v1, v2) = (b1[i], b2[i]);
        if v1 <= floor && v2 <= floor {
            assert_eq!(&rgb[3 * i..3 * i + 3], &[0, 0, 0]);
        } else {
            assert_eq!(rgb[3 * i], red[v1 as usize]);
            assert_eq!(rgb[3 * i + 1], green[v2 as usize]);
        }
    }
}
