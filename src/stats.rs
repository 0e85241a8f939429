//! Integer side of the distribution statistics engine: the fixed-bin histogram of the
//! valid samples and the inversion of its cumulative distribution at a percentile.
//!
//! Mapping a dB value to its bin, and interpolating a value inside the located bin, are
//! floating-point steps taken by the caller: a percentile `p` lies at
//! `min + (bin + within / bin_count) · (max - min) / bins`.
use vstd::prelude::*;

verus! {

/// Number of histogram bins spanning `[min, max]`.
pub const HISTOGRAM_BINS: usize = 4096;

/// The percentiles the statistics snapshot holds, in ascending order.
pub const SNAPSHOT_PERCENTS: [u64; 11] = [1, 2, 5, 10, 25, 50, 75, 90, 95, 98, 99];

/// Number of samples of `s` that fall in bin `b`.
pub open spec fn bin_count(s: Seq<u16>, b: int) -> nat
    decreases s.len(),
{
    if s.len() == 0 {
        0
    } else {
        bin_count(s.drop_last(), b) + if s.last() as int == b {
            1nat
        } else {
            0nat
        }
    }
}

/// Samples in the bins before bin `b`.
pub open spec fn cum_before(h: Seq<u64>, b: int) -> nat
    decreases b,
{
    if b <= 0 || h.len() == 0 {
        0
    } else if b > h.len() {
        cum_before(h, h.len() as int)
    } else {
        cum_before(h, b - 1) + h[b - 1] as nat
    }
}

/// All samples of the histogram.
pub open spec fn histogram_total(h: Seq<u64>) -> nat {
    cum_before(h, h.len() as int)
}

/// Rank of the `percent`-th percentile among `count` samples: `floor(percent · count / 100)`,
/// clamped to the last rank.
pub open spec fn percentile_rank(count: nat, percent: nat) -> nat {
    let t = percent * count / 100;
    if t >= count {
        (count - 1) as nat
    } else {
        t
    }
}

/// The bin holding rank `t`, searching from bin `b` upward.
pub open spec fn bin_of_rank(h: Seq<u64>, t: nat, b: nat) -> nat
    decreases h.len() - b,
{
    if b + 1 >= h.len() || t < cum_before(h, b as int + 1) {
        b
    } else {
        bin_of_rank(h, t, b + 1)
    }
}

/// Where a rank falls in the histogram: its bin, its offset among that bin's samples, and
/// the bin's sample count. The rank sits at fractional bin position
/// `bin + within / bin_count`.
#[derive(Copy, Clone, Debug, PartialEq, Eq, Structural)]
pub struct RankPosition {
    pub bin: usize,
    pub within: u64,
    pub bin_count: u64,
}

/// The position of rank `t` in histogram `h`.
pub open spec fn rank_position(h: Seq<u64>, t: nat) -> (nat, nat, nat) {
    let b = bin_of_rank(h, t, 0);
    (b, (t - cum_before(h, b as int)) as nat, h[b as int] as nat)
}

proof fn lemma_bin_count_bounded(s: Seq<u16>, b: int)
    ensures
        bin_count(s, b) <= s.len(),
    decreases s.len(),
{
    if s.len() > 0 {
        lemma_bin_count_bounded(s.drop_last(), b);
    }
}

/// Counts the samples of each bin: `hist[b]` is the number of entries of `bins` equal to `b`.
pub fn histogram_of_bins(bins: &[u16], num_bins: usize) -> (hist: Vec<u64>)
    requires
        forall|i: int| 0 <= i < bins@.len() ==> (#[trigger] bins@[i] as int) < num_bins,
        bins@.len() <= u64::MAX,
    ensures
        hist@.len() == num_bins,
        forall|b: int| 0 <= b < num_bins ==> #[trigger] hist@[b] as nat == bin_count(bins@, b),
{
    let mut hist: Vec<u64> = Vec::with_capacity(num_bins);
    let mut b: usize = 0;
    while b < num_bins
        invariant
            b <= num_bins,
            hist@.len() == b,
            forall|k: int| 0 <= k < b ==> #[trigger] hist@[k] == 0,
        decreases num_bins - b,
    {
        hist.push(0);
        b = b + 1;
    }
    let n: usize = bins.len();
    let mut i: usize = 0;
    while i < n
        invariant
            n == bins@.len(),
            n <= u64::MAX,
            i <= n,
            hist@.len() == num_bins,
            forall|k: int| 0 <= k < bins@.len() ==> (#[trigger] bins@[k] as int) < num_bins,
            forall|k: int| 0 <= k < num_bins ==> #[trigger] hist@[k] as nat == bin_count(bins@.take(i as int), k),
        decreases n - i,
    {
        let v: usize = bins[i] as usize;
        proof {
            assert(bins@.take(i as int + 1).drop_last() =~= bins@.take(i as int));
            lemma_bin_count_bounded(bins@.take(i as int), v as int);
        }
        hist.set(v, hist[v] + 1);
        i = i + 1;
    }
    assert(bins@.take(n as int) =~= bins@);
    hist
}

proof fn lemma_cum_before_mono(h: Seq<u64>, a: int, b: int)
    requires
        0 <= a <= b <= h.len(),
    ensures
        cum_before(h, a) <= cum_before(h, b),
    decreases b - a,
{
    if a < b {
        lemma_cum_before_mono(h, a, b - 1);
    }
}

/// The located bin brackets the rank: `cum_before(bin) <= t < cum_before(bin) + hist[bin]`.
proof fn lemma_bin_of_rank_brackets(h: Seq<u64>, t: nat, b: nat)
    requires
        b < h.len(),
        cum_before(h, b as int) <= t < histogram_total(h),
    ensures
        ({
            let r = bin_of_rank(h, t, b);
            &&& b <= r < h.len()
            &&& cum_before(h, r as int) <= t < cum_before(h, r as int) + h[r as int]
        }),
    decreases h.len() - b,
{
    if b + 1 >= h.len() {
        assert(cum_before(h, b as int + 1) == cum_before(h, b as int) + h[b as int]);
    } else if t < cum_before(h, b as int + 1) {
        assert(cum_before(h, b as int + 1) == cum_before(h, b as int) + h[b as int]);
    } else {
        lemma_bin_of_rank_brackets(h, t, b + 1);
    }
}

/// Locates the rank of the `percent`-th percentile of the `count` samples of `hist`.
pub fn locate_percentile(hist: &[u64], count: u64, percent: u64) -> (r: RankPosition)
    requires
        hist@.len() > 0,
        count as nat == histogram_total(hist@),
        count > 0,
        percent <= 100,
    ensures
        (r.bin as nat, r.within as nat, r.bin_count as nat) == rank_position(
            hist@,
            percentile_rank(count as nat, percent as nat),
        ),
        r.within < r.bin_count,
        cum_before(hist@, r.bin as int) + r.within == percentile_rank(count as nat, percent as nat),
{
    assert(percent as int * count as int <= u128::MAX) by (nonlinear_arith)
        requires
            percent <= 100,
            count <= u64::MAX,
    ;
    let wide: u128 = percent as u128 * count as u128 / 100;
    let t: u64 = if wide >= count as u128 {
        count - 1
    } else {
        wide as u64
    };
    let ghost h = hist@;
    proof {
        lemma_bin_of_rank_brackets(h, t as nat, 0);
    }
    let n: usize = hist.len();
    let mut b: usize = 0;
    let mut cum: u64 = 0;
    proof {
        lemma_cum_before_mono(h, 1, n as int);
        assert(cum_before(h, 1) == cum_before(h, 0) + h[0]);
    }
    while b + 1 < n && t >= cum + hist[b]
        invariant
            n == h.len(),
            h == hist@,
            b < n,
            t < count,
            count as nat == histogram_total(h),
            cum as nat == cum_before(h, b as int),
            cum <= t,
            cum as nat + h[b as int] as nat == cum_before(h, b as int + 1),
            cum_before(h, b as int + 1) <= count,
            bin_of_rank(h, t as nat, 0) == bin_of_rank(h, t as nat, b as nat),
        decreases n - b,
    {
        cum = cum + hist[b];
        b = b + 1;
        proof {
            lemma_cum_before_mono(h, b as int + 1, n as int);
            assert(cum_before(h, b as int + 1) == cum_before(h, b as int) + h[b as int]);
        }
    }
    proof {
        lemma_cum_before_mono(h, b as int + 1, n as int);
        assert(cum_before(h, b as int + 1) == cum_before(h, b as int) + h[b as int]);
        lemma_bin_of_rank_brackets(h, t as nat, 0);
    }
    RankPosition { bin: b, within: t - cum, bin_count: hist[b] }
}

/// Percentile positions are ordered: for `lo_pct <= hi_pct`, the `lo_pct`-th percentile lies at a
/// fractional bin position `bin + within / bin_count` no greater than the `hi_pct`-th, and
/// both lie inside the histogram's span of bins. The estimated values therefore satisfy
/// `min <= p01 <= p02 <= ... <= p99 <= max`.
pub proof fn lemma_percentiles_ordered(h: Seq<u64>, count: nat, lo_pct: nat, hi_pct: nat)
    requires
        h.len() > 0,
        count == histogram_total(h),
        count > 0,
        lo_pct <= hi_pct <= 100,
    ensures
        ({
            let (b1, w1, c1) = rank_position(h, percentile_rank(count, lo_pct));
            let (b2, w2, c2) = rank_position(h, percentile_rank(count, hi_pct));
            &&& b2 < h.len()
            &&& w1 < c1 && w2 < c2
            &&& (b1 * c1 + w1) * c2 <= (b2 * c2 + w2) * c1
        }),
{
    let t1 = percentile_rank(count, lo_pct);
    let t2 = percentile_rank(count, hi_pct);
    assert(lo_pct * count / 100 <= hi_pct * count / 100) by (nonlinear_arith)
        requires
            lo_pct <= hi_pct,
    ;
    assert(t1 <= t2);
    lemma_bin_of_rank_brackets(h, t1, 0);
    lemma_bin_of_rank_brackets(h, t2, 0);
    let b1 = bin_of_rank(h, t1, 0);
    let b2 = bin_of_rank(h, t2, 0);
    let c1 = h[b1 as int] as nat;
    let c2 = h[b2 as int] as nat;
    let w1 = (t1 - cum_before(h, b1 as int)) as nat;
    let w2 = (t2 - cum_before(h, b2 as int)) as nat;
    if b1 > b2 {
        lemma_cum_before_mono(h, b2 as int + 1, b1 as int);
        assert(cum_before(h, b2 as int + 1) == cum_before(h, b2 as int) + h[b2 as int]);
        assert(false);
    } else if b1 == b2 {
        assert((b1 * c1 + w1) * c2 <= (b2 * c2 + w2) * c1) by (nonlinear_arith)
            requires
                b1 == b2,
                c1 == c2,
                w1 <= w2,
        ;
    } else {
        assert((b1 * c1 + w1) * c2 <= (b2 * c2 + w2) * c1) by (nonlinear_arith)
            requires
                b1 < b2,
                w1 < c1,
                w2 < c2,
                c1 > 0,
                c2 > 0,
        ;
    }
}

/// A distribution whose samples all fall in one bin has every percentile in that bin: the
/// snapshot collapses to a single value, within one bin of resolution.
pub proof fn lemma_single_bin_percentiles(h: Seq<u64>, count: nat, b: int, percent: nat)
    requires
        0 <= b < h.len(),
        forall|j: int| 0 <= j < h.len() && j != b ==> #[trigger] h[j] == 0,
        count == histogram_total(h),
        count > 0,
        percent <= 100,
    ensures
        rank_position(h, percentile_rank(count, percent)).0 == b,
{
    let t = percentile_rank(count, percent);
    lemma_bin_of_rank_brackets(h, t, 0);
}

} // verus!
