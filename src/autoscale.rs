//! Integer side of the autoscale strategy engine: 16-to-8-bit stretching, the per-strategy
//! scaling plan, and the tile geometry and histogram clipping of CLAHE.
use vstd::prelude::*;

use crate::stats::cum_before;
use crate::types::{is_copol_spec, AutoscaleStrategy, Polarization};

verus! {

/// Smallest sample of a non-empty sequence.
pub open spec fn seq_min(s: Seq<u16>) -> u16
    decreases s.len(),
{
    if s.len() <= 1 {
        s[0]
    } else {
        let m = seq_min(s.drop_last());
        if s.last() < m {
            s.last()
        } else {
            m
        }
    }
}

/// Largest sample of a non-empty sequence.
pub open spec fn seq_max(s: Seq<u16>) -> u16
    decreases s.len(),
{
    if s.len() <= 1 {
        s[0]
    } else {
        let m = seq_max(s.drop_last());
        if s.last() > m {
            s.last()
        } else {
            m
        }
    }
}

/// `(x - lo) · 255 / (hi - lo)` rounded to the nearest integer (halves up);
/// 0 when the range is empty.
pub open spec fn rescale_to_byte(x: int, lo: int, hi: int) -> int {
    if hi > lo {
        ((x - lo) * 510 + (hi - lo)) / (2 * (hi - lo))
    } else {
        0
    }
}

/// Every sample of `s` stretched linearly from `[min, max]` of `s` onto `[0, 255]`.
pub open spec fn stretched_to_bytes(s: Seq<u16>) -> Seq<u8> {
    Seq::new(
        s.len(),
        |i: int| rescale_to_byte(s[i] as int, seq_min(s) as int, seq_max(s) as int) as u8,
    )
}

proof fn lemma_rescale_in_byte_range(x: int, lo: int, hi: int)
    requires
        lo <= x <= hi,
    ensures
        0 <= rescale_to_byte(x, lo, hi) <= 255,
{
    if hi > lo {
        let d = hi - lo;
        let n = (x - lo) * 510 + d;
        assert(0 <= n < 256 * (2 * d)) by (nonlinear_arith)
            requires
                n == (x - lo) * 510 + d,
                0 <= x - lo <= d,
                d > 0,
        ;
        assert(0 <= n / (2 * d) < 256) by (nonlinear_arith)
            requires
                0 <= n < 256 * (2 * d),
                d > 0,
        ;
    }
}

/// Stretches 16-bit samples linearly onto 8 bits: the smallest sample becomes 0, the
/// largest 255, each value rounded to nearest; a constant input becomes all zeros.
pub fn scale_u16_to_u8(data: &[u16]) -> (out: Vec<u8>)
    ensures
        out@ == stretched_to_bytes(data@),
{
    let n: usize = data.len();
    let mut out: Vec<u8> = Vec::with_capacity(n);
    if n == 0 {
        assert(out@ =~= stretched_to_bytes(data@));
        return out;
    }
    let mut lo: u16 = data[0];
    let mut hi: u16 = data[0];
    let mut i: usize = 1;
    while i < n
        invariant
            n == data@.len(),
            1 <= i <= n,
            lo == seq_min(data@.take(i as int)),
            hi == seq_max(data@.take(i as int)),
        decreases n - i,
    {
        assert(data@.take(i as int + 1).drop_last() =~= data@.take(i as int));
        if data[i] < lo {
            lo = data[i];
        }
        if data[i] > hi {
            hi = data[i];
        }
        i = i + 1;
    }
    assert(data@.take(n as int) =~= data@);
    proof {
        lemma_min_max_bound(data@);
    }
    let mut j: usize = 0;
    while j < n
        invariant
            n == data@.len(),
            j <= n,
            lo == seq_min(data@),
            hi == seq_max(data@),
            forall|k: int| 0 <= k < n ==> lo <= #[trigger] data@[k] <= hi,
            out@.len() == j,
            forall|k: int|
                0 <= k < j ==> out@[k] == rescale_to_byte(data@[k] as int, lo as int, hi as int)
                    as u8,
        decreases n - j,
    {
        let x: u16 = data[j];
        let v: u8 = if hi > lo {
            let d: u64 = (hi - lo) as u64;
            let num: u64 = (x - lo) as u64 * 510 + d;
            proof {
                lemma_rescale_in_byte_range(x as int, lo as int, hi as int);
            }
            (num / (2 * d)) as u8
        } else {
            0
        };
        out.push(v);
        j = j + 1;
    }
    assert(out@ =~= stretched_to_bytes(data@));
    out
}

/// Every sample lies between the minimum and the maximum of the sequence.
proof fn lemma_min_max_bound(s: Seq<u16>)
    requires
        s.len() > 0,
    ensures
        forall|k: int| 0 <= k < s.len() ==> seq_min(s) <= #[trigger] s[k] <= seq_max(s),
    decreases s.len(),
{
    if s.len() > 1 {
        lemma_min_max_bound(s.drop_last());
        assert forall|k: int| 0 <= k < s.len() implies seq_min(s) <= #[trigger] s[k] <= seq_max(
            s,
        ) by {
            if k < s.len() - 1 {
                assert(s[k] == s.drop_last()[k]);
            }
        }
    }
}

/// Bins of a CLAHE tile histogram.
pub const CLAHE_BINS: usize = 256;

/// Tiles along each axis of the CLAHE tile grid.
pub const CLAHE_TILES: usize = 8;

/// Side of a CLAHE tile: `len / tiles` rounded up, so that the tiles cover any remainder.
pub open spec fn tile_extent_of(len: nat, tiles: nat) -> nat {
    if tiles == 0 {
        0
    } else {
        ((len + tiles - 1) / tiles as int) as nat
    }
}

/// Ceiling-sized tile side for `len` samples split into `tiles` tiles.
pub fn clahe_tile_extent(len: usize, tiles: usize) -> (r: usize)
    requires
        tiles > 0,
    ensures
        r as nat == tile_extent_of(len as nat, tiles as nat),
{
    let q: usize = len / tiles;
    let r: usize = len % tiles;
    proof {
        let l = len as int;
        let t = tiles as int;
        assert(l == q * t + r && 0 <= r < t) by (nonlinear_arith)
            requires
                q as int == l / t,
                r as int == l % t,
                t > 0,
                l >= 0,
        ;
        if r == 0 {
            assert((l + t - 1) / t == q) by (nonlinear_arith)
                requires
                    l == q * t,
                    t > 0,
                    q >= 0,
            ;
        } else {
            assert((l + t - 1) / t == q + 1) by (nonlinear_arith)
                requires
                    l == q * t + r,
                    0 < r < t,
                    q >= 0,
            ;
            assert(q + 1 <= l) by (nonlinear_arith)
                requires
                    l == q * t + r,
                    0 < r < t,
                    q >= 0,
            ;
        }
    }
    if r == 0 {
        q
    } else {
        q + 1
    }
}

/// Lower of the two tiles whose centers bracket position `pos`:
/// `max(0, floor(pos / extent - 1/2))`.
pub open spec fn lower_tile_of(pos: nat, extent: nat) -> nat {
    if 2 * pos < extent {
        0
    } else {
        ((2 * pos - extent) / (2 * extent as int)) as nat
    }
}

/// Along an axis the blended tiles advance without skipping: the lower tile never moves
/// back as the position grows, and one step moves it by at most one tile.
pub proof fn lemma_lower_tile_advances(pos: nat, extent: nat)
    requires
        extent > 0,
    ensures
        lower_tile_of(pos, extent) <= lower_tile_of(pos + 1, extent),
        lower_tile_of(pos + 1, extent) <= lower_tile_of(pos, extent) + 1,
{
    let a: int = 2 * pos - extent;
    let d: int = 2 * extent as int;
    if 2 * pos >= extent {
        assert(a / d <= (a + 2) / d && (a + 2) / d <= a / d + 1) by (nonlinear_arith)
            requires
                a >= 0,
                d >= 2,
        ;
    } else if 2 * (pos + 1) >= extent {
        let b: int = 2 * (pos + 1) - extent;
        assert(b / d <= 1) by (nonlinear_arith)
            requires
                0 <= b < 2,
                d >= 2,
        ;
    }
}

/// The two tile indices (clamped to the grid) whose CDFs are blended at position `pos`
/// along one axis.
pub fn clahe_neighbor_tiles(pos: usize, extent: usize, tiles: usize) -> (r: (usize, usize))
    requires
        extent > 0,
        tiles > 0,
    ensures
        r.0 as nat == if lower_tile_of(pos as nat, extent as nat) < tiles {
            lower_tile_of(pos as nat, extent as nat)
        } else {
            (tiles - 1) as nat
        },
        r.1 as nat == if lower_tile_of(pos as nat, extent as nat) + 1 < tiles {
            lower_tile_of(pos as nat, extent as nat) + 1
        } else {
            (tiles - 1) as nat
        },
{
    let twice: u128 = 2 * pos as u128;
    let lower: usize = if twice < extent as u128 {
        0
    } else {
        let q: u128 = (twice - extent as u128) / (2 * extent as u128);
        assert(q <= pos) by (nonlinear_arith)
            requires
                q == (twice - extent) / (2 * extent),
                twice == 2 * pos,
                twice >= extent,
                extent >= 1,
        ;
        q as usize
    };
    let t0: usize = if lower < tiles {
        lower
    } else {
        tiles - 1
    };
    let t1: usize = if lower < tiles - 1 {
        lower + 1
    } else {
        tiles - 1
    };
    (t0, t1)
}

/// Valid samples of row `r`, columns `c0..c`, whose bin is `b`.
pub open spec fn row_bin_count(
    bins: Seq<u8>,
    valid: Seq<bool>,
    cols: nat,
    r: nat,
    c0: nat,
    c: int,
    b: int,
) -> nat
    decreases c - c0,
{
    if c <= c0 {
        0
    } else {
        let i = r * cols + (c - 1);
        row_bin_count(bins, valid, cols, r, c0, c - 1, b) + if valid[i] && bins[i] as int == b {
            1nat
        } else {
            0nat
        }
    }
}

/// Valid samples of rows `r0..r`, columns `c0..c1`, whose bin is `b`.
pub open spec fn tile_bin_count(
    bins: Seq<u8>,
    valid: Seq<bool>,
    cols: nat,
    r0: nat,
    r: int,
    c0: nat,
    c1: nat,
    b: int,
) -> nat
    decreases r - r0,
{
    if r <= r0 {
        0
    } else {
        tile_bin_count(bins, valid, cols, r0, r - 1, c0, c1, b) + row_bin_count(
            bins,
            valid,
            cols,
            (r - 1) as nat,
            c0,
            c1 as int,
            b,
        )
    }
}

proof fn lemma_row_bin_count_bounded(
    bins: Seq<u8>,
    valid: Seq<bool>,
    cols: nat,
    r: nat,
    c0: nat,
    c: int,
    b: int,
)
    ensures
        c >= c0 ==> row_bin_count(bins, valid, cols, r, c0, c, b) <= c - c0,
    decreases c - c0,
{
    if c > c0 {
        lemma_row_bin_count_bounded(bins, valid, cols, r, c0, c - 1, b);
    }
}

proof fn lemma_tile_bin_count_bounded(
    bins: Seq<u8>,
    valid: Seq<bool>,
    cols: nat,
    r0: nat,
    r: int,
    c0: nat,
    c1: nat,
    b: int,
)
    requires
        c0 <= c1,
    ensures
        r >= r0 ==> tile_bin_count(bins, valid, cols, r0, r, c0, c1, b) <= (r - r0) * (c1 - c0),
    decreases r - r0,
{
    if r > r0 {
        lemma_tile_bin_count_bounded(bins, valid, cols, r0, r - 1, c0, c1, b);
        lemma_row_bin_count_bounded(bins, valid, cols, (r - 1) as nat, c0, c1 as int, b);
        assert((r - 1 - r0) * (c1 - c0) + (c1 - c0) == (r - r0) * (c1 - c0)) by (nonlinear_arith);
    }
}

/// The 256-bin histogram of one CLAHE tile: rows `r0..r1`, columns `c0..c1` of a row-major
/// `cols`-wide grid of bin indices, counting valid samples only.
pub fn clahe_tile_histogram(
    bins: &[u8],
    valid: &[bool],
    cols: usize,
    r0: usize,
    r1: usize,
    c0: usize,
    c1: usize,
) -> (hist: Vec<u64>)
    requires
        bins@.len() == valid@.len(),
        r0 <= r1,
        c0 <= c1 <= cols,
        r1 * cols <= bins@.len(),
    ensures
        hist@.len() == 256,
        forall|b: int|
            0 <= b < 256 ==> #[trigger] hist@[b] as nat == tile_bin_count(
                bins@,
                valid@,
                cols as nat,
                r0 as nat,
                r1 as int,
                c0 as nat,
                c1 as nat,
                b,
            ),
{
    let n: usize = bins.len();
    let mut hist: Vec<u64> = Vec::with_capacity(256);
    let mut k: usize = 0;
    while k < 256
        invariant
            k <= 256,
            hist@.len() == k,
            forall|j: int| 0 <= j < k ==> #[trigger] hist@[j] == 0,
        decreases 256 - k,
    {
        hist.push(0);
        k = k + 1;
    }
    let mut r: usize = r0;
    while r < r1
        invariant
            n == bins@.len(),
            bins@.len() == valid@.len(),
            r0 <= r <= r1,
            c0 <= c1 <= cols,
            r1 * cols <= n,
            hist@.len() == 256,
            forall|b: int|
                0 <= b < 256 ==> #[trigger] hist@[b] as nat == tile_bin_count(
                    bins@,
                    valid@,
                    cols as nat,
                    r0 as nat,
                    r as int,
                    c0 as nat,
                    c1 as nat,
                    b,
                ),
        decreases r1 - r,
    {
        let mut c: usize = c0;
        while c < c1
            invariant
                n == bins@.len(),
                bins@.len() == valid@.len(),
                r0 <= r < r1,
                c0 <= c <= c1,
                c1 <= cols,
                r1 * cols <= n,
                hist@.len() == 256,
                forall|b: int|
                    0 <= b < 256 ==> #[trigger] hist@[b] as nat == tile_bin_count(
                        bins@,
                        valid@,
                        cols as nat,
                        r0 as nat,
                        r as int,
                        c0 as nat,
                        c1 as nat,
                        b,
                    ) + row_bin_count(bins@, valid@, cols as nat, r as nat, c0 as nat, c as int, b),
            decreases c1 - c,
        {
            assert(r * cols + c < n) by (nonlinear_arith)
                requires
                    r < r1,
                    c < c1 <= cols,
                    r1 * cols <= n,
            ;
            let i: usize = r * cols + c;
            if valid[i] {
                let b: usize = bins[i] as usize;
                proof {
                    lemma_tile_bin_count_bounded(bins@, valid@, cols as nat, r0 as nat, r as int, c0 as nat, c1 as nat, b as int);
                    lemma_row_bin_count_bounded(bins@, valid@, cols as nat, r as nat, c0 as nat, c as int, b as int);
                    assert((r - r0) * (c1 - c0) + (c - c0) < n) by (nonlinear_arith)
                        requires
                            r0 <= r < r1,
                            c0 <= c < c1 <= cols,
                            r1 * cols <= n,
                    ;
                }
                hist.set(b, hist[b] + 1);
            }
            c = c + 1;
        }
        r = r + 1;
    }
    hist
}

/// Clip limit of a tile histogram, times 128: `max(1, 2 · pixels / 256)` scaled by 128.
pub open spec fn clip_limit_128(tile_pixels: nat) -> nat {
    if tile_pixels > 128 {
        tile_pixels
    } else {
        128
    }
}

/// Excess above the clip limit, times 128, summed over the first `n` bins.
pub open spec fn excess_128(h: Seq<u64>, tile_pixels: nat, n: int) -> nat
    decreases n,
{
    if n <= 0 {
        0
    } else {
        let l = clip_limit_128(tile_pixels);
        excess_128(h, tile_pixels, n - 1) + if 128 * h[n - 1] > l {
            (128 * h[n - 1] - l) as nat
        } else {
            0nat
        }
    }
}

/// A bin clipped at the limit (rounded down to whole samples).
pub open spec fn clipped_bin(count: nat, tile_pixels: nat) -> nat {
    let l = clip_limit_128(tile_pixels);
    if 128 * count > l {
        l / 128
    } else {
        count
    }
}

/// Tile histogram after clipping every bin at the limit and spreading the total excess
/// uniformly: each bin gains `floor(excess / 256)`, and the rounded remainder adds one
/// sample to each of the first bins in turn.
pub open spec fn redistributed(h: Seq<u64>, tile_pixels: nat) -> Seq<nat> {
    let e = excess_128(h, tile_pixels, 256);
    let add = e / 32768;
    let remainder = ((e % 32768) + 64) / 128;
    Seq::new(
        256,
        |b: int| clipped_bin(h[b] as nat, tile_pixels) + add + if b < remainder {
            1nat
        } else {
            0nat
        },
    )
}

proof fn lemma_excess_bounded(h: Seq<u64>, tile_pixels: nat, n: int)
    requires
        0 <= n <= h.len(),
        forall|b: int| 0 <= b < h.len() ==> #[trigger] h[b] <= tile_pixels,
    ensures
        excess_128(h, tile_pixels, n) <= 128 * n * tile_pixels,
    decreases n,
{
    if n > 0 {
        lemma_excess_bounded(h, tile_pixels, n - 1);
        assert(128 * (n - 1) * tile_pixels + 128 * tile_pixels == 128 * n * tile_pixels) by (
        nonlinear_arith);
    }
}

/// Clips a 256-bin tile histogram at `max(1, 2 · tile_pixels / 256)` and redistributes the
/// clipped excess uniformly, the rounded remainder one sample per bin from bin 0 on.
pub fn clip_and_redistribute(hist: &[u64], tile_pixels: u64) -> (out: Vec<u64>)
    requires
        hist@.len() == 256,
        tile_pixels <= u64::MAX / 4,
        forall|b: int| 0 <= b < 256 ==> #[trigger] hist@[b] <= tile_pixels,
    ensures
        out@.len() == 256,
        forall|b: int| 0 <= b < 256 ==> #[trigger] out@[b] as nat == redistributed(hist@, tile_pixels as nat)[b],
{
    let limit: u128 = if tile_pixels > 128 {
        tile_pixels as u128
    } else {
        128
    };
    let mut excess: u128 = 0;
    let mut b: usize = 0;
    while b < 256
        invariant
            hist@.len() == 256,
            tile_pixels <= u64::MAX / 4,
            forall|k: int| 0 <= k < 256 ==> #[trigger] hist@[k] <= tile_pixels,
            limit == clip_limit_128(tile_pixels as nat),
            b <= 256,
            excess == excess_128(hist@, tile_pixels as nat, b as int),
        decreases 256 - b,
    {
        proof {
            lemma_excess_bounded(hist@, tile_pixels as nat, b as int + 1);
            assert(128 * (b + 1) * tile_pixels <= 128 * 256 * (u64::MAX / 4)) by (nonlinear_arith)
                requires
                    b < 256,
                    tile_pixels <= u64::MAX / 4,
            ;
        }
        let scaled: u128 = 128 * hist[b] as u128;
        if scaled > limit {
            excess = excess + (scaled - limit);
        }
        b = b + 1;
    }
    let add: u128 = excess / 32768;
    let remainder: u128 = (excess % 32768 + 64) / 128;
    proof {
        lemma_excess_bounded(hist@, tile_pixels as nat, 256);
        assert(add <= tile_pixels) by (nonlinear_arith)
            requires
                add == excess / 32768,
                excess <= 128 * 256 * tile_pixels,
        ;
    }
    let mut out: Vec<u64> = Vec::with_capacity(256);
    let mut k: usize = 0;
    while k < 256
        invariant
            hist@.len() == 256,
            tile_pixels <= u64::MAX / 4,
            forall|j: int| 0 <= j < 256 ==> #[trigger] hist@[j] <= tile_pixels,
            limit == clip_limit_128(tile_pixels as nat),
            excess == excess_128(hist@, tile_pixels as nat, 256),
            add == excess / 32768,
            add <= tile_pixels,
            remainder == ((excess % 32768) + 64) / 128,
            k <= 256,
            out@.len() == k,
            forall|j: int| 0 <= j < k ==> #[trigger] out@[j] as nat == redistributed(hist@, tile_pixels as nat)[j],
        decreases 256 - k,
    {
        let count: u128 = hist[k] as u128;
        let base: u128 = if 128 * count > limit {
            limit / 128
        } else {
            count
        };
        let extra: u128 = if (k as u128) < remainder {
            1
        } else {
            0
        };
        assert(base <= tile_pixels + 1);
        out.push((base + add + extra) as u64);
        k = k + 1;
    }
    out
}

/// Running totals of a histogram: entry `i` counts the samples in bins `0..=i`.
pub fn cumulative_counts(hist: &[u64]) -> (out: Vec<u64>)
    requires
        cum_before(hist@, hist@.len() as int) <= u64::MAX,
    ensures
        out@.len() == hist@.len(),
        forall|i: int| 0 <= i < hist@.len() ==> #[trigger] out@[i] as nat == cum_before(hist@, i + 1),
{
    let n: usize = hist.len();
    let mut out: Vec<u64> = Vec::with_capacity(n);
    let mut acc: u64 = 0;
    let mut i: usize = 0;
    while i < n
        invariant
            n == hist@.len(),
            cum_before(hist@, n as int) <= u64::MAX,
            i <= n,
            acc as nat == cum_before(hist@, i as int),
            out@.len() == i,
            forall|j: int| 0 <= j < i ==> #[trigger] out@[j] as nat == cum_before(hist@, j + 1),
        decreases n - i,
    {
        proof {
            lemma_cum_mono(hist@, i as int + 1, n as int);
        }
        acc = acc + hist[i];
        out.push(acc);
        i = i + 1;
    }
    out
}

proof fn lemma_cum_mono(h: Seq<u64>, a: int, b: int)
    requires
        0 <= a <= b <= h.len(),
    ensures
        cum_before(h, a) <= cum_before(h, b),
    decreases b - a,
{
    if a < b {
        lemma_cum_mono(h, a, b - 1);
    }
}

/// Marks of the statistics snapshot: the extremes, the median and the percentiles.
#[derive(Copy, Clone, Debug, PartialEq, Eq, Structural)]
pub enum Mark {
    Min,
    P01,
    P02,
    P05,
    P10,
    P25,
    Median,
    P75,
    P90,
    P95,
    P98,
    P99,
    Max,
}

/// How the clip window `[low, high]` is derived from the snapshot. Whatever the rule, the
/// bounds are clamped to `[min, max]` afterwards and the range floored at 1.
#[derive(Copy, Clone, Debug, PartialEq, Eq, Structural)]
pub enum ClipWindow {
    /// `[low mark, high mark]`.
    Marks(Mark, Mark),
    /// A window centered on the median, of width `max(20, 0.8 · (max - min))`.
    MedianCentered,
    /// `[p25 - 2.5 · IQR, p75 + 2.5 · IQR]`.
    InterquartileFence,
    /// `[max(p02, min + 0.02 · range), min(p98, max - 0.02 · range)]`.
    GuardedTails,
    /// `[max(p25 - 2.5 · IQR, p01, min), min(p75 + 2.5 · IQR, p99, max)]`.
    RobustFence,
    /// `[min(p02, p05), p99]`, the co-polarized tamed composite window.
    CopolTamed,
}

/// Shape tests on the snapshot that select among a strategy's rules.
#[derive(Copy, Clone, Debug, PartialEq, Eq, Structural)]
pub struct DistributionShape {
    /// `max - min < 15` dB.
    pub low_contrast: bool,
    /// `p75 - p25 < 5` dB.
    pub narrow_spread: bool,
    /// `max - min > 40` dB.
    pub high_range: bool,
    /// `|(mean - median) / max(|std|, 1)| > 0.5`.
    pub strong_skew: bool,
    /// `(mean - median) / max(|std|, 1) > 0`.
    pub positive_skew: bool,
    /// `(p99 - p95) / max(p95 - p75, 1) > 2`.
    pub heavy_tail: bool,
}

/// Strategy parameters: the clip window, the gamma in tenths, the local-enhancement flag,
/// and whether CLAHE replaces the gamma quantization.
#[derive(Copy, Clone, Debug, PartialEq, Eq, Structural)]
pub struct ScalingPlan {
    pub window: ClipWindow,
    pub gamma_tenths: u8,
    pub use_local_enhancement: bool,
    pub equalize: bool,
}

/// The plan of a strategy for a distribution of the given shape.
pub open spec fn plan_for(strategy: AutoscaleStrategy, shape: DistributionShape) -> ScalingPlan {
    let (window, gamma) = match strategy {
        AutoscaleStrategy::Standard => if shape.low_contrast {
            (ClipWindow::MedianCentered, 11u8)
        } else if shape.narrow_spread {
            (ClipWindow::InterquartileFence, 10u8)
        } else if shape.high_range {
            (ClipWindow::GuardedTails, 9u8)
        } else {
            (ClipWindow::Marks(Mark::P02, Mark::P98), 10u8)
        },
        AutoscaleStrategy::Robust => (ClipWindow::RobustFence, 10u8),
        AutoscaleStrategy::Adaptive => if shape.strong_skew && shape.positive_skew {
            (ClipWindow::Marks(Mark::P02, Mark::P98), 9u8)
        } else if shape.strong_skew {
            (ClipWindow::Marks(Mark::P05, Mark::P95), 11u8)
        } else if shape.heavy_tail {
            (ClipWindow::Marks(Mark::P10, Mark::P90), 8u8)
        } else {
            (ClipWindow::Marks(Mark::P05, Mark::P95), 10u8)
        },
        AutoscaleStrategy::Equalized => (ClipWindow::Marks(Mark::P01, Mark::P99), 10u8),
        AutoscaleStrategy::Tamed => (ClipWindow::Marks(Mark::P25, Mark::P99), 10u8),
        AutoscaleStrategy::Clahe => (ClipWindow::Marks(Mark::P01, Mark::P99), 10u8),
        AutoscaleStrategy::Default => (ClipWindow::Marks(Mark::P05, Mark::P95), 10u8),
    };
    ScalingPlan {
        window,
        gamma_tenths: gamma,
        use_local_enhancement: false,
        equalize: strategy == AutoscaleStrategy::Clahe,
    }
}

/// Chooses the clip window and gamma of a strategy from the shape of the distribution.
/// No strategy turns local enhancement on, and only CLAHE equalizes.
pub fn scaling_plan(strategy: AutoscaleStrategy, shape: DistributionShape) -> (r: ScalingPlan)
    ensures
        r == plan_for(strategy, shape),
        !r.use_local_enhancement,
        r.equalize <==> strategy == AutoscaleStrategy::Clahe,
{
    let (window, gamma_tenths): (ClipWindow, u8) = match strategy {
        AutoscaleStrategy::Standard => {
            if shape.low_contrast {
                (ClipWindow::MedianCentered, 11)
            } else if shape.narrow_spread {
                (ClipWindow::InterquartileFence, 10)
            } else if shape.high_range {
                (ClipWindow::GuardedTails, 9)
            } else {
                (ClipWindow::Marks(Mark::P02, Mark::P98), 10)
            }
        },
        AutoscaleStrategy::Robust => (ClipWindow::RobustFence, 10),
        AutoscaleStrategy::Adaptive => {
            if shape.strong_skew && shape.positive_skew {
                (ClipWindow::Marks(Mark::P02, Mark::P98), 9)
            } else if shape.strong_skew {
                (ClipWindow::Marks(Mark::P05, Mark::P95), 11)
            } else if shape.heavy_tail {
                (ClipWindow::Marks(Mark::P10, Mark::P90), 8)
            } else {
                (ClipWindow::Marks(Mark::P05, Mark::P95), 10)
            }
        },
        AutoscaleStrategy::Equalized => (ClipWindow::Marks(Mark::P01, Mark::P99), 10),
        AutoscaleStrategy::Tamed => (ClipWindow::Marks(Mark::P25, Mark::P99), 10),
        AutoscaleStrategy::Clahe => (ClipWindow::Marks(Mark::P01, Mark::P99), 10),
        AutoscaleStrategy::Default => (ClipWindow::Marks(Mark::P05, Mark::P95), 10),
    };
    let equalize: bool = match strategy {
        AutoscaleStrategy::Clahe => true,
        _ => false,
    };
    ScalingPlan { window, gamma_tenths, use_local_enhancement: false, equalize }
}

/// Plan of the band-specific tamed scaling that feeds the synthetic RGB compositor: 8-bit,
/// gamma 1, high clip at p99, low clip at `min(p02, p05)` for co-polarized bands and at
/// p05 for cross-polarized ones.
pub fn tamed_synrgb_plan(pol: Polarization) -> (r: ScalingPlan)
    ensures
        r.window == if is_copol_spec(pol) {
            ClipWindow::CopolTamed
        } else {
            ClipWindow::Marks(Mark::P05, Mark::P99)
        },
        r.gamma_tenths == 10,
        !r.use_local_enhancement,
        !r.equalize,
{
    let window = if pol.is_copol() {
        ClipWindow::CopolTamed
    } else {
        ClipWindow::Marks(Mark::P05, Mark::P99)
    };
    ScalingPlan { window, gamma_tenths: 10, use_local_enhancement: false, equalize: false }
}

} // verus!
