use sarpro::autoscale::{
    clahe_neighbor_tiles, clahe_tile_extent, clahe_tile_histogram, clip_and_redistribute, cumulative_counts,
    scale_u16_to_u8, scaling_plan, tamed_synrgb_plan, ClipWindow, DistributionShape, Mark,
};
use sarpro::stats::{histogram_of_bins, locate_percentile, RankPosition, SNAPSHOT_PERCENTS};
use sarpro::{AutoscaleStrategy, Polarization};

#[test]
fn histogram_counts_each_bin() {
    let hist = histogram_of_bins(&[0, 3, 3, 1, 3], 4);
    assert_eq!(hist, vec![1, 1, 0, 3]);
    assert_eq!(histogram_of_bins(&[], 2), vec![0, 0]);
}

#[test]
fn percentile_located_inside_bin() {
    // 10 samples: bins hold 2, 0, 5, 3.
    let hist = vec![2u64, 0, 5, 3];
    // Median rank floor(0.5 * 10) = 5: third sample of bin 2.
    assert_eq!(
        locate_percentile(&hist, 10, 50),
        RankPosition { bin: 2, within: 3, bin_count: 5 }
    );
    assert_eq!(
        locate_percentile(&hist, 10, 1),
        RankPosition { bin: 0, within: 0, bin_count: 2 }
    );
    // Rank 9 is the last sample.
    assert_eq!(
        locate_percentile(&hist, 10, 99),
        RankPosition { bin: 3, within: 2, bin_count: 3 }
    );
    assert_eq!(
        locate_percentile(&hist, 10, 100),
        RankPosition { bin: 3, within: 2, bin_count: 3 }
    );
}

#[test]
fn snapshot_percentiles_are_ordered() {
    let hist: Vec<u64> = (0..64u64).map(|b| (b * 7) % 5).collect();
    let count: u64 = hist.iter().sum();
    let mut last = 0.0f64;
    for p in SNAPSHOT_PERCENTS {
        let r = locate_percentile(&hist, count, p);
        assert!(r.within < r.bin_count);
        let pos = r.bin as f64 + r.within as f64 / r.bin_count as f64;
        assert!(pos >= last);
        assert!(pos < 64.0);
        last = pos;
    }
}

#[test]
fn stretch_u16_onto_bytes() {
    assert_eq!(scale_u16_to_u8(&[0, 65535]), vec![0, 255]);
    assert_eq!(scale_u16_to_u8(&[10, 20, 15]), vec![0, 255, 128]);
    assert_eq!(scale_u16_to_u8(&[100, 100]), vec![0, 0]);
    assert_eq!(scale_u16_to_u8(&[]), Vec::<u8>::new());
    assert_eq!(scale_u16_to_u8(&[0, 3, 1, 2]), vec![0, 255, 85, 170]);
}

#[test]
fn clahe_clip_spreads_excess() {
    let mut hist = vec![0u64; 256];
    hist[0] = 256;
    let out = clip_and_redistribute(&hist, 256);
    assert_eq!(out[0], 3);
    assert!(out[1..254].iter().all(|&v| v == 1));
    assert!(out[254..].iter().all(|&v| v == 0));
    assert_eq!(out.iter().sum::<u64>(), 256);
}

#[test]
fn clahe_clip_leaves_flat_histogram() {
    let hist = vec![4u64; 256];
    let out = clip_and_redistribute(&hist, 1024);
    assert_eq!(out, hist);
}

#[test]
fn clahe_clip_with_large_excess() {
    let mut hist = vec![0u64; 256];
    hist[10] = 100_000;
    hist[20] = 28_000;
    let out = clip_and_redistribute(&hist, 128_000);
    // Limit 1000 per bin; excess 99000 + 27000 = 126000 = 492 * 256 + 48.
    assert_eq!(out[10], 1000 + 492 + 1);
    assert_eq!(out[20], 1000 + 492 + 1);
    assert_eq!(out[47], 492 + 1);
    assert_eq!(out[48], 492);
    assert_eq!(out.iter().sum::<u64>(), 128_000);
}

#[test]
fn clahe_tiles_cover_remainder() {
    assert_eq!(clahe_tile_extent(64, 8), 8);
    assert_eq!(clahe_tile_extent(65, 8), 9);
    assert_eq!(clahe_tile_extent(3, 8), 1);
    assert_eq!(clahe_neighbor_tiles(0, 8, 8), (0, 1));
    assert_eq!(clahe_neighbor_tiles(12, 8, 8), (1, 2));
    assert_eq!(clahe_neighbor_tiles(63, 8, 8), (7, 7));
    assert_eq!(clahe_neighbor_tiles(8, 8, 2), (0, 1));
}

#[test]
fn cumulative_counts_running_totals() {
    assert_eq!(cumulative_counts(&[1, 0, 2, 5]), vec![1, 1, 3, 8]);
}

fn shape(low_contrast: bool, narrow_spread: bool, high_range: bool) -> DistributionShape {
    DistributionShape {
        low_contrast,
        narrow_spread,
        high_range,
        strong_skew: false,
        positive_skew: false,
        heavy_tail: false,
    }
}

#[test]
fn standard_plan_follows_range() {
    let p = scaling_plan(AutoscaleStrategy::Standard, shape(true, true, false));
    assert_eq!((p.window, p.gamma_tenths), (ClipWindow::MedianCentered, 11));
    let p = scaling_plan(AutoscaleStrategy::Standard, shape(false, true, true));
    assert_eq!((p.window, p.gamma_tenths), (ClipWindow::InterquartileFence, 10));
    let p = scaling_plan(AutoscaleStrategy::Standard, shape(false, false, true));
    assert_eq!((p.window, p.gamma_tenths), (ClipWindow::GuardedTails, 9));
    let p = scaling_plan(AutoscaleStrategy::Standard, shape(false, false, false));
    assert_eq!(p.window, ClipWindow::Marks(Mark::P02, Mark::P98));
    assert!(!p.use_local_enhancement && !p.equalize);
}

#[test]
fn adaptive_plan_follows_skew_and_tail() {
    let mut s = shape(false, false, false);
    s.strong_skew = true;
    s.positive_skew = true;
    let p = scaling_plan(AutoscaleStrategy::Adaptive, s);
    assert_eq!((p.window, p.gamma_tenths), (ClipWindow::Marks(Mark::P02, Mark::P98), 9));
    s.positive_skew = false;
    let p = scaling_plan(AutoscaleStrategy::Adaptive, s);
    assert_eq!((p.window, p.gamma_tenths), (ClipWindow::Marks(Mark::P05, Mark::P95), 11));
    s.strong_skew = false;
    s.heavy_tail = true;
    let p = scaling_plan(AutoscaleStrategy::Adaptive, s);
    assert_eq!((p.window, p.gamma_tenths), (ClipWindow::Marks(Mark::P10, Mark::P90), 8));
    assert!(!p.use_local_enhancement);
}

#[test]
fn fixed_strategy_windows() {
    let s = shape(false, false, false);
    let p = scaling_plan(AutoscaleStrategy::Robust, s);
    assert_eq!(p.window, ClipWindow::RobustFence);
    let p = scaling_plan(AutoscaleStrategy::Equalized, s);
    assert_eq!(p.window, ClipWindow::Marks(Mark::P01, Mark::P99));
    let p = scaling_plan(AutoscaleStrategy::Tamed, s);
    assert_eq!(p.window, ClipWindow::Marks(Mark::P25, Mark::P99));
    let p = scaling_plan(AutoscaleStrategy::Default, s);
    assert_eq!(p.window, ClipWindow::Marks(Mark::P05, Mark::P95));
    let p = scaling_plan(AutoscaleStrategy::Clahe, s);
    assert_eq!(p.window, ClipWindow::Marks(Mark::P01, Mark::P99));
    assert!(p.equalize);
}

#[test]
fn tamed_composite_plan_by_polarization() {
    assert_eq!(tamed_synrgb_plan(Polarization::Vv).window, ClipWindow::CopolTamed);
    assert_eq!(tamed_synrgb_plan(Polarization::Hh).window, ClipWindow::CopolTamed);
    assert_eq!(tamed_synrgb_plan(Polarization::Vh).window, ClipWindow::Marks(Mark::P05, Mark::P99));
    assert_eq!(tamed_synrgb_plan(Polarization::Hv).window, ClipWindow::Marks(Mark::P05, Mark::P99));
}

#[test]
fn clahe_tile_histogram_counts_valid_samples() {
    // 3 x 4 grid of bins; the tile is rows 1..3, columns 1..3.
    let bins: Vec<u8> = vec![5, 5, 5, 5, 9, 7, 7, 9, 9, 7, 255, 9];
    let mut valid = vec![true; 12];
    valid[6] = false;
    let hist = clahe_tile_histogram(&bins, &valid, 4, 1, 3, 1, 3);
    assert_eq!(hist.len(), 256);
    assert_eq!(hist[7], 2);
    assert_eq!(hist[255], 1);
    assert_eq!(hist[9], 0);
    assert_eq!(hist[5], 0);
    assert_eq!(hist.iter().sum::<u64>(), 3);
}

#[test]
fn single_bin_distribution_collapses() {
    let mut hist = vec![0u64; 4096];
    hist[1234] = 64;
    for p in SNAPSHOT_PERCENTS {
        let r = locate_percentile(&hist, 64, p);
        assert_eq!(r.bin, 1234);
        assert_eq!(r.bin_count, 64);
    }
    assert_eq!(scale_u16_to_u8(&[4000; 8]), vec![0; 8]);
}
