//! Synthetic RGB compositor: two 8-bit bands become an interleaved RGB image through
//! gamma lookup tables and a band-ratio blue channel, with a water-suppressed variant.
//!
//! Every table entry is a rounded power law `round(y)`, clamped to 255, with `y` of the
//! form `(num / den)^(1/10) / (2m)`. Such a value is computed exactly in integers: level
//! `k >= 1` is reached iff `den · (m(2k - 1))^10 <= num`, i.e. iff `y >= k - 1/2`.
use vstd::prelude::*;

use crate::arith::{
    lemma_power_add, lemma_power_mono_base, lemma_power_mono_exp, lemma_power_positive, power, power_u128,
};
use crate::bignum::{big_ge, big_power_product, big_value};
use crate::error::Error;
use crate::types::{AutoscaleStrategy, SyntheticRgbMode};

verus! {

/// `(m · (2k - 1))^10`: the tenth power of the scaled half-way point below level `k`.
pub open spec fn threshold(m: nat, k: nat) -> nat {
    power((m * (2 * k - 1)) as nat, 10)
}

/// Walks up from level `k` while the next level is reached, stopping at 255.
pub open spec fn level_from(num: nat, den: nat, m: nat, k: nat) -> nat
    decreases 255 - k,
{
    if k < 255 && den * threshold(m, k + 1) <= num {
        level_from(num, den, m, k + 1)
    } else {
        k
    }
}

/// `min(255, round(y))` for `y = (num / den)^(1/10) / (2m)`, halves rounded up.
pub open spec fn rounded_level(num: nat, den: nat, m: nat) -> nat {
    level_from(num, den, m, 0)
}

/// The rounded level brackets `y`: level `k` is reached and level `k + 1` is not.
pub proof fn lemma_rounded_level_brackets(num: nat, den: nat, m: nat)
    ensures
        ({
            let k = rounded_level(num, den, m);
            &&& k <= 255
            &&& k == 0 || den * threshold(m, k) <= num
            &&& k == 255 || den * threshold(m, k + 1) > num
        }),
{
    lemma_level_from_brackets(num, den, m, 0);
}

proof fn lemma_level_from_brackets(num: nat, den: nat, m: nat, k: nat)
    requires
        k <= 255,
        k == 0 || den * threshold(m, k) <= num,
    ensures
        ({
            let l = level_from(num, den, m, k);
            &&& k <= l <= 255
            &&& l == 0 || den * threshold(m, l) <= num
            &&& l == 255 || den * threshold(m, l + 1) > num
        }),
    decreases 255 - k,
{
    if k < 255 && den * threshold(m, k + 1) <= num {
        lemma_level_from_brackets(num, den, m, k + 1);
    }
}

/// Exponent numerator of a `tenths / 10` gamma curve on `v / 255`, scaled so that
/// `rounded_level(gamma_num(v, t), 1, 1) == round(255 · (v / 255)^(t / 10))`.
pub open spec fn gamma_num(v: nat, tenths: nat) -> nat {
    power(v, tenths) * power(2, 10) * power(255, (10 - tenths) as nat)
}

/// Red table entry of the default composite: `round(255 · (v / 255)^0.7)`.
pub open spec fn red_of(v: u8) -> nat {
    rounded_level(gamma_num(v as nat, 7), 1, 1)
}

/// Green table entry of the default composite: `round(255 · (v / 255)^0.9)`.
pub open spec fn green_of(v: u8) -> nat {
    rounded_level(gamma_num(v as nat, 9), 1, 1)
}

/// Blue from gamma-mapped red `r` and green `g`: `round(255 · 0.24 · (r / g)^0.1)`.
pub open spec fn ratio_blue(r: nat, g: nat) -> nat {
    rounded_level(r * power(612, 10), g, 5)
}

/// Blue of the default composite: 0 where the second band is 0.
pub open spec fn default_blue(b1: u8, b2: u8) -> nat {
    if b2 == 0 {
        0
    } else {
        ratio_blue(red_of(b1), green_of(b2))
    }
}

/// One pixel of the default composite.
pub open spec fn default_rgb(b1: u8, b2: u8) -> (nat, nat, nat) {
    (red_of(b1), green_of(b2), default_blue(b1, b2))
}

/// Where the second band is 0 the blue channel is 0; red follows the first band alone and
/// green the second band alone.
pub proof fn lemma_default_channels_independent(b1: u8, b2: u8, c1: u8, c2: u8)
    ensures
        default_rgb(b1, 0).2 == 0,
        default_rgb(b1, b2).0 == default_rgb(b1, c2).0,
        default_rgb(b1, b2).1 == default_rgb(c1, b2).1,
{
}

/// Blue of the suppressed composite, stabilized by 8 on both sides of the ratio:
/// `round(255 · 0.18 · ((r + 8) / (g + 8))^0.1)`.
pub open spec fn stabilized_blue(r: nat, g: nat) -> nat {
    rounded_level((r + 8) * power(918, 10), g + 8, 10)
}

/// `thresholds[k] == threshold(m, k)` for each level `k` in `1..=255`.
pub open spec fn thresholds_for(t: Seq<u128>, m: nat) -> bool {
    &&& t.len() == 256
    &&& forall|k: int| 1 <= k <= 255 ==> #[trigger] t[k] == threshold(m, k as nat)
}

/// The thresholds of every level for scale `m`.
fn threshold_table(m: u128) -> (t: Vec<u128>)
    requires
        1 <= m <= 10,
    ensures
        thresholds_for(t@, m as nat),
{
    let mut t: Vec<u128> = Vec::with_capacity(256);
    t.push(0);
    let mut k: u128 = 1;
    while k <= 255
        invariant
            1 <= m <= 10,
            1 <= k <= 256,
            t@.len() == k,
            forall|j: int| 1 <= j < k ==> #[trigger] t@[j] == threshold(m as nat, j as nat),
        decreases 256 - k,
    {
        assert(m * (2 * k - 1) <= 5090) by (nonlinear_arith)
            requires
                1 <= m <= 10,
                1 <= k <= 255,
        ;
        let x: u128 = m * (2 * k - 1);
        proof {
            lemma_power_mono_base(x as nat, 5090, 10);
            reveal_with_fuel(power, 11);
            assert(power(5090, 10) <= u128::MAX);
        }
        t.push(power_u128(x, 10));
        k = k + 1;
    }
    t
}

/// `rounded_level(num, den, m)`, found by walking up the threshold table.
fn level_of(num: u128, den: u128, t: &Vec<u128>, Ghost(m): Ghost<nat>) -> (r: u8)
    requires
        thresholds_for(t@, m),
    ensures
        r as nat == rounded_level(num as nat, den as nat, m),
{
    let mut k: usize = 0;
    let mut climbing: bool = true;
    while climbing
        invariant
            thresholds_for(t@, m),
            k <= 255,
            rounded_level(num as nat, den as nat, m) == if climbing {
                level_from(num as nat, den as nat, m, k as nat)
            } else {
                k as nat
            },
        decreases 255 - k + (if climbing { 1int } else { 0int }),
    {
        if k < 255 {
            match den.checked_mul(t[k + 1]) {
                Some(p) => {
                    if p <= num {
                        k = k + 1;
                    } else {
                        climbing = false;
                    }
                },
                None => {
                    climbing = false;
                },
            }
        } else {
            climbing = false;
        }
    }
    k as u8
}

/// `round(255 · (v / 255)^(tenths / 10))` for every byte `v`.
fn gamma_table(tenths: u32, t: &Vec<u128>) -> (g: Vec<u8>)
    requires
        1 <= tenths <= 10,
        thresholds_for(t@, 1),
    ensures
        g@.len() == 256,
        forall|v: int|
            0 <= v < 256 ==> #[trigger] g@[v] as nat == rounded_level(
                gamma_num(v as nat, tenths as nat),
                1,
                1,
            ),
{
    let mut g: Vec<u8> = Vec::with_capacity(256);
    proof {
        reveal_with_fuel(power, 11);
        lemma_power_mono_exp(255, (10 - tenths) as nat, 10);
        lemma_power_positive(255, (10 - tenths) as nat);
    }
    let scale: u128 = power_u128(255, 10 - tenths);
    proof {
        reveal_with_fuel(power, 11);
        lemma_power_mono_base(255, 255, (10 - tenths) as nat);
        lemma_power_add(255, tenths as nat, (10 - tenths) as nat);
        assert(power(255, 10) * 1024 <= u128::MAX);
        assert(power(255, tenths as nat) * power(255, (10 - tenths) as nat) == power(255, 10));
    }
    let mut v: u128 = 0;
    while v < 256
        invariant
            1 <= tenths <= 10,
            thresholds_for(t@, 1),
            scale == power(255, (10 - tenths) as nat),
            power(255, (10 - tenths) as nat) >= 1,
            power(255, tenths as nat) * power(255, (10 - tenths) as nat) == power(255, 10),
            power(255, 10) * 1024 <= u128::MAX,
            v <= 256,
            g@.len() == v,
            forall|w: int|
                0 <= w < v ==> #[trigger] g@[w] as nat == rounded_level(
                    gamma_num(w as nat, tenths as nat),
                    1,
                    1,
                ),
        decreases 256 - v,
    {
        proof {
            lemma_power_mono_base(v as nat, 255, tenths as nat);
            assert(power(v as nat, tenths as nat) <= u128::MAX) by (nonlinear_arith)
                requires
                    power(v as nat, tenths as nat) <= power(255, tenths as nat),
                    power(255, tenths as nat) * power(255, (10 - tenths) as nat) == power(255, 10),
                    power(255, (10 - tenths) as nat) >= 1,
                    power(255, 10) * 1024 <= u128::MAX,
            ;
        }
        let pv: u128 = power_u128(v, tenths);
        proof {
            assert(pv * 1024 * scale <= power(255, 10) * 1024) by (nonlinear_arith)
                requires
                    pv <= power(255, tenths as nat),
                    power(255, tenths as nat) * scale == power(255, 10),
            ;
            reveal_with_fuel(power, 11);
            assert(power(2, 10) == 1024);
        }
        let num: u128 = pv * 1024 * scale;
        let level: u8 = level_of(num, 1, t, Ghost(1));
        g.push(level);
        v = v + 1;
    }
    g
}

/// The three lookup tables of a composite: red and green by raw byte, blue by
/// `(band1 << 8) | band2`.
pub struct RgbTables {
    pub red: Vec<u8>,
    pub green: Vec<u8>,
    pub blue: Vec<u8>,
}

impl RgbTables {
    pub open spec fn well_formed(&self) -> bool {
        self.red@.len() == 256 && self.green@.len() == 256 && self.blue@.len() == 65536
    }

    /// The tables of the default composite: red gamma 0.7, green gamma 0.9, and the
    /// blue ratio with exponent 0.1 and gain 0.24.
    pub fn default_tables() -> (r: RgbTables)
        ensures
            r.well_formed(),
            forall|v: u8| #[trigger] r.red@[v as int] as nat == red_of(v),
            forall|v: u8| #[trigger] r.green@[v as int] as nat == green_of(v),
            forall|b1: u8, b2: u8| #[trigger] r.blue@[b1 * 256 + b2] as nat == default_blue(b1, b2),
    {
        let unit = threshold_table(1);
        let red = gamma_table(7, &unit);
        let green = gamma_table(9, &unit);
        let fifths = threshold_table(5);
        proof {
            reveal_with_fuel(power, 11);
            assert(power(612, 10) * 255 <= u128::MAX);
        }
        let gain: u128 = power_u128(612, 10);
        let mut blue: Vec<u8> = Vec::with_capacity(65536);
        let mut b1: usize = 0;
        while b1 < 256
            invariant
                thresholds_for(fifths@, 5),
                red@.len() == 256,
                green@.len() == 256,
                forall|v: int| 0 <= v < 256 ==> #[trigger] red@[v] as nat == red_of(v as u8),
                forall|v: int| 0 <= v < 256 ==> #[trigger] green@[v] as nat == green_of(v as u8),
                gain == power(612, 10),
                power(612, 10) * 255 <= u128::MAX,
                b1 <= 256,
                blue@.len() == b1 * 256,
                forall|i: int, j: int|
                    0 <= i < b1 && 0 <= j < 256 ==> #[trigger] blue@[i * 256 + j] as nat
                        == default_blue(i as u8, j as u8),
            decreases 256 - b1,
        {
            let mut b2: usize = 0;
            while b2 < 256
                invariant
                    thresholds_for(fifths@, 5),
                    red@.len() == 256,
                    green@.len() == 256,
                    forall|v: int| 0 <= v < 256 ==> #[trigger] red@[v] as nat == red_of(v as u8),
                    forall|v: int| 0 <= v < 256 ==> #[trigger] green@[v] as nat == green_of(v as u8),
                    gain == power(612, 10),
                    power(612, 10) * 255 <= u128::MAX,
                    b1 < 256,
                    b2 <= 256,
                    blue@.len() == b1 * 256 + b2,
                    forall|i: int, j: int|
                        (0 <= i < b1 && 0 <= j < 256) || (i == b1 && 0 <= j < b2)
                            ==> #[trigger] blue@[i * 256 + j] as nat == default_blue(i as u8, j as u8),
                decreases 256 - b2,
            {
                let value: u8 = if b2 == 0 {
                    0
                } else {
                    let r: u128 = red[b1] as u128;
                    let g: u128 = green[b2] as u128;
                    proof {
                        assert(r * gain <= 255 * power(612, 10)) by (nonlinear_arith)
                            requires
                                r <= 255,
                                gain == power(612, 10),
                        ;
                    }
                    level_of(r * gain, g, &fifths, Ghost(5))
                };
                proof {
                    assert(red@[b1 as int] as nat == red_of(b1 as u8));
                    assert(green@[b2 as int] as nat == green_of(b2 as u8));
                }
                blue.push(value);
                proof {
                    assert forall|i: int, j: int|
                        (0 <= i < b1 && 0 <= j < 256) || (i == b1 && 0 <= j < b2 + 1)
                            implies #[trigger] blue@[i * 256 + j] as nat == default_blue(i as u8, j as u8) by {
                        if i == b1 && j == b2 {
                            assert(i * 256 + j == b1 * 256 + b2);
                        } else {
                            assert(i * 256 + j < b1 * 256 + b2) by (nonlinear_arith)
                                requires
                                    (0 <= i < b1 && 0 <= j < 256) || (i == b1 && 0 <= j < b2),
                            ;
                        }
                    }
                }
                b2 = b2 + 1;
            }
            b1 = b1 + 1;
        }
        proof {
            assert forall|v: u8| #[trigger] red@[v as int] as nat == red_of(v) by {
                assert(red@[v as int] as nat == red_of((v as int) as u8));
            }
            assert forall|v: u8| #[trigger] green@[v as int] as nat == green_of(v) by {
                assert(green@[v as int] as nat == green_of((v as int) as u8));
            }
            assert forall|x: u8, y: u8| #[trigger] blue@[x * 256 + y] as nat == default_blue(x, y) by {
                assert(blue@[(x as int) * 256 + (y as int)] as nat == default_blue((x as int) as u8, (y as int) as u8));
            }
        }
        RgbTables { red, green, blue }
    }
}

/// Interleaves red, green and blue for every pixel through the tables.
fn compose(band1: &[u8], band2: &[u8], tables: &RgbTables) -> (out: Vec<u8>)
    requires
        band1@.len() == band2@.len(),
        tables.well_formed(),
        3 * band1@.len() <= usize::MAX,
    ensures
        out@.len() == 3 * band1@.len(),
        forall|i: int|
            0 <= i < band1@.len() ==> {
                &&& #[trigger] out@[3 * i] == tables.red@[band1@[i] as int]
                &&& out@[3 * i + 1] == tables.green@[band2@[i] as int]
                &&& out@[3 * i + 2] == tables.blue@[band1@[i] * 256 + band2@[i]]
            },
{
    let n: usize = band1.len();
    let mut out: Vec<u8> = Vec::with_capacity(3 * n);
    let mut i: usize = 0;
    while i < n
        invariant
            n == band1@.len(),
            band1@.len() == band2@.len(),
            tables.well_formed(),
            i <= n,
            out@.len() == 3 * i,
            forall|k: int|
                0 <= k < i ==> {
                    &&& #[trigger] out@[3 * k] == tables.red@[band1@[k] as int]
                    &&& out@[3 * k + 1] == tables.green@[band2@[k] as int]
                    &&& out@[3 * k + 2] == tables.blue@[band1@[k] * 256 + band2@[k]]
                },
        decreases n - i,
    {
        let v1: usize = band1[i] as usize;
        let v2: usize = band2[i] as usize;
        let ghost prev = out@;
        out.push(tables.red[v1]);
        out.push(tables.green[v2]);
        out.push(tables.blue[v1 * 256 + v2]);
        proof {
            assert forall|k: int| 0 <= k < i + 1 implies {
                &&& #[trigger] out@[3 * k] == tables.red@[band1@[k] as int]
                &&& out@[3 * k + 1] == tables.green@[band2@[k] as int]
                &&& out@[3 * k + 2] == tables.blue@[band1@[k] * 256 + band2@[k]]
            } by {
                if k < i {
                    assert(out@[3 * k] == prev[3 * k]);
                    assert(out@[3 * k + 1] == prev[3 * k + 1]);
                    assert(out@[3 * k + 2] == prev[3 * k + 2]);
                }
            }
        }
        i = i + 1;
    }
    out
}

/// Default composite: per pixel, red `round(255 · (b1 / 255)^0.7)`, green
/// `round(255 · (b2 / 255)^0.9)`, and blue 0 where `b2 == 0`, else
/// `round(255 · 0.24 · (red / green)^0.1)`; interleaved as `R, G, B`.
pub fn create_synthetic_rgb(band1_data: &[u8], band2_data: &[u8]) -> (out: Vec<u8>)
    requires
        band1_data@.len() == band2_data@.len(),
        3 * band1_data@.len() <= usize::MAX,
    ensures
        out@.len() == 3 * band1_data@.len(),
        forall|i: int|
            0 <= i < band1_data@.len() && band2_data@[i] == 0 ==> #[trigger] out@[3 * i + 2] == 0
                && out@[3 * i] as nat == red_of(band1_data@[i]),
        forall|i: int|
            0 <= i < band1_data@.len() ==> #[trigger] pixel_matches(
                out@,
                i,
                default_rgb(band1_data@[i], band2_data@[i]),
            ),
{
    let tables = RgbTables::default_tables();
    let out = compose(band1_data, band2_data, &tables);
    assert forall|i: int| 0 <= i < band1_data@.len() implies #[trigger] pixel_matches(
        out@,
        i,
        default_rgb(band1_data@[i], band2_data@[i]),
    ) by {
        assert(out@[3 * i] == tables.red@[band1_data@[i] as int]);
        assert(tables.red@[band1_data@[i] as int] as nat == red_of(band1_data@[i]));
        assert(tables.green@[band2_data@[i] as int] as nat == green_of(band2_data@[i]));
        assert(tables.blue@[band1_data@[i] * 256 + band2_data@[i]] as nat == default_blue(band1_data@[i], band2_data@[i]));
    }
    assert forall|i: int|
        0 <= i < band1_data@.len() && band2_data@[i] == 0 implies #[trigger] out@[3 * i + 2] == 0
            && out@[3 * i] as nat == red_of(band1_data@[i]) by {
        assert(pixel_matches(out@, i, default_rgb(band1_data@[i], band2_data@[i])));
    }
    out
}

/// Composition by externally named mode: every mode currently resolves to the default
/// composite.
pub fn create_synthetic_rgb_by_mode(mode: SyntheticRgbMode, band1_data: &[u8], band2_data: &[u8]) -> (out:
    Vec<u8>)
    requires
        band1_data@.len() == band2_data@.len(),
        3 * band1_data@.len() <= usize::MAX,
    ensures
        out@.len() == 3 * band1_data@.len(),
        forall|i: int|
            0 <= i < band1_data@.len() ==> #[trigger] pixel_matches(
                out@,
                i,
                default_rgb(band1_data@[i], band2_data@[i]),
            ),
{
    match mode {
        SyntheticRgbMode::Default => create_synthetic_rgb(band1_data, band2_data),
        SyntheticRgbMode::RgbRatio => create_synthetic_rgb(band1_data, band2_data),
        SyntheticRgbMode::SarUrban => create_synthetic_rgb(band1_data, band2_data),
        SyntheticRgbMode::Enhanced => create_synthetic_rgb(band1_data, band2_data),
    }
}

/// The ratio-inspired composition; not implemented.
pub fn create_synthetic_rgb_rgb_ratio(band1_data: &[u8], band2_data: &[u8]) -> (r: Result<
    Vec<u8>,
    Error,
>)
    ensures
        r == Err::<Vec<u8>, Error>(Error::NotImplemented),
{
    Err(Error::NotImplemented)
}

/// The urban-inspired composition; not implemented.
pub fn create_synthetic_rgb_urban(band1_data: &[u8], band2_data: &[u8]) -> (r: Result<
    Vec<u8>,
    Error,
>)
    ensures
        r == Err::<Vec<u8>, Error>(Error::NotImplemented),
{
    Err(Error::NotImplemented)
}

/// The enhanced-visualization composition; not implemented.
pub fn create_synthetic_rgb_enhanced(band1_data: &[u8], band2_data: &[u8]) -> (r: Result<
    Vec<u8>,
    Error,
>)
    ensures
        r == Err::<Vec<u8>, Error>(Error::NotImplemented),
{
    Err(Error::NotImplemented)
}

/// Number of samples of `s` at or below `t`.
pub open spec fn count_at_most(s: Seq<u8>, t: int) -> nat
    decreases s.len(),
{
    if s.len() == 0 {
        0
    } else {
        count_at_most(s.drop_last(), t) + if s.last() as int <= t {
            1nat
        } else {
            0nat
        }
    }
}

/// Number of samples of `s` equal to `v`.
pub open spec fn count_equal(s: Seq<u8>, v: int) -> nat
    decreases s.len(),
{
    if s.len() == 0 {
        0
    } else {
        count_equal(s.drop_last(), v) + if s.last() as int == v {
            1nat
        } else {
            0nat
        }
    }
}

/// Samples of both bands at or below level `t`.
pub open spec fn combined_at_most(b1: Seq<u8>, b2: Seq<u8>, t: int) -> nat {
    count_at_most(b1, t) + count_at_most(b2, t)
}

/// 5% of all samples of both bands, rounded to nearest.
pub open spec fn water_target(b1: Seq<u8>, b2: Seq<u8>) -> nat {
    (b1.len() + b2.len() + 10) / 20
}

/// First level from `i` up at which the combined cumulative count reaches `target`.
pub open spec fn first_level_reaching(b1: Seq<u8>, b2: Seq<u8>, target: nat, i: nat) -> nat
    decreases 255 - i,
{
    if i >= 255 || combined_at_most(b1, b2, i as int) >= target {
        i
    } else {
        first_level_reaching(b1, b2, target, i + 1)
    }
}

/// Water floor: the combined 5th-percentile level plus a cushion of 3, capped at 40.
pub open spec fn water_floor(b1: Seq<u8>, b2: Seq<u8>) -> nat {
    let f = first_level_reaching(b1, b2, water_target(b1, b2), 0);
    if f + 3 < 40 {
        f + 3
    } else {
        40
    }
}

proof fn lemma_count_equal_bounded(s: Seq<u8>, v: int)
    ensures
        count_equal(s, v) <= s.len(),
    decreases s.len(),
{
    if s.len() > 0 {
        lemma_count_equal_bounded(s.drop_last(), v);
    }
}

proof fn lemma_count_at_most_step(s: Seq<u8>, t: int)
    ensures
        t >= 1 ==> count_at_most(s, t) == count_at_most(s, t - 1) + count_equal(s, t),
        count_at_most(s, 0) == count_equal(s, 0),
    decreases s.len(),
{
    if s.len() > 0 {
        lemma_count_at_most_step(s.drop_last(), t);
    }
}

/// Adds one to the bin of each sample.
fn accumulate(hist: &mut Vec<u128>, band: &[u8], Ghost(base): Ghost<Seq<u8>>)
    requires
        old(hist)@.len() == 256,
        forall|v: int| 0 <= v < 256 ==> #[trigger] old(hist)@[v] == count_equal(base, v),
        base.len() <= usize::MAX,
    ensures
        final(hist)@.len() == 256,
        forall|v: int|
            0 <= v < 256 ==> #[trigger] final(hist)@[v] == count_equal(base, v) + count_equal(
                band@,
                v,
            ),
{
    let n: usize = band.len();
    let mut i: usize = 0;
    while i < n
        invariant
            n == band@.len(),
            i <= n,
            hist@.len() == 256,
            base.len() <= usize::MAX,
            forall|v: int|
                0 <= v < 256 ==> #[trigger] hist@[v] == count_equal(base, v) + count_equal(
                    band@.take(i as int),
                    v,
                ),
        decreases n - i,
    {
        let b: usize = band[i] as usize;
        proof {
            assert(band@.take(i as int + 1).drop_last() =~= band@.take(i as int));
            lemma_count_equal_bounded(base, b as int);
            lemma_count_equal_bounded(band@.take(i as int), b as int);
        }
        hist.set(b, hist[b] + 1);
        i = i + 1;
    }
    assert(band@.take(n as int) =~= band@);
}

/// The water floor of two bands: the level at which the combined histogram of both bands
/// first holds 5% of all samples (rounded), plus 3, capped at 40.
pub fn suppression_floor(band1_data: &[u8], band2_data: &[u8]) -> (f: u8)
    ensures
        f as nat == water_floor(band1_data@, band2_data@),
{
    let mut hist: Vec<u128> = Vec::with_capacity(256);
    let mut v: usize = 0;
    while v < 256
        invariant
            v <= 256,
            hist@.len() == v,
            forall|w: int| 0 <= w < v ==> #[trigger] hist@[w] == 0,
        decreases 256 - v,
    {
        hist.push(0);
        v = v + 1;
    }
    let ghost empty = Seq::<u8>::empty();
    assert forall|w: int| 0 <= w < 256 implies #[trigger] hist@[w] == count_equal(empty, w) by {}
    let n1: usize = band1_data.len();
    let n2: usize = band2_data.len();
    accumulate(&mut hist, band1_data, Ghost(empty));
    assert forall|w: int| 0 <= w < 256 implies #[trigger] hist@[w] == count_equal(band1_data@, w) by {}
    accumulate(&mut hist, band2_data, Ghost(band1_data@));
    let total: u128 = band1_data.len() as u128 + band2_data.len() as u128;
    let target: u128 = (total + 10) / 20;
    let ghost b1 = band1_data@;
    let ghost b2 = band2_data@;
    proof {
        lemma_count_at_most_step(b1, 0);
        lemma_count_at_most_step(b2, 0);
    }
    let mut level: usize = 0;
    let mut cum: u128 = hist[0];
    while level < 255 && cum < target
        invariant
            level <= 255,
            hist@.len() == 256,
            forall|w: int| 0 <= w < 256 ==> #[trigger] hist@[w] == count_equal(b1, w) + count_equal(b2, w),
            target == water_target(b1, b2),
            b1.len() == n1,
            b2.len() == n2,
            cum == combined_at_most(b1, b2, level as int),
            first_level_reaching(b1, b2, target as nat, 0) == first_level_reaching(
                b1,
                b2,
                target as nat,
                level as nat,
            ),
        decreases 255 - level,
    {
        proof {
            lemma_count_at_most_step(b1, level + 1);
            lemma_count_at_most_step(b2, level + 1);
            lemma_combined_bounded(b1, b2, level + 1);
        }
        level = level + 1;
        cum = cum + hist[level];
    }
    let floor: usize = if level + 3 < 40 {
        level + 3
    } else {
        40
    };
    floor as u8
}

proof fn lemma_combined_bounded(b1: Seq<u8>, b2: Seq<u8>, t: int)
    ensures
        combined_at_most(b1, b2, t) <= b1.len() + b2.len(),
{
    lemma_count_at_most_bounded(b1, t);
    lemma_count_at_most_bounded(b2, t);
}

proof fn lemma_count_at_most_bounded(s: Seq<u8>, t: int)
    ensures
        count_at_most(s, t) <= s.len(),
    decreases s.len(),
{
    if s.len() > 0 {
        lemma_count_at_most_bounded(s.drop_last(), t);
    }
}

/// Whether `255 · (a / d)^(n / 20) >= k - 1/2`, decided exactly:
/// `(2k - 1)^20 · d^n <= a^n · 510^20`.
pub open spec fn shifted_reaches(a: nat, d: nat, n: nat, k: nat) -> bool {
    power((2 * k - 1) as nat, 20) * power(d, n) <= power(a, n) * power(510, 20)
}

/// Walks up from level `k` while the next level is reached, stopping at 255.
pub open spec fn shifted_level_from(a: nat, d: nat, n: nat, k: nat) -> nat
    decreases 255 - k,
{
    if k < 255 && shifted_reaches(a, d, n, k + 1) {
        shifted_level_from(a, d, n, k + 1)
    } else {
        k
    }
}

/// Floor-shifted tone curve with gamma `n / 20`: 0 at or below the floor `f`, else
/// `round(255 · ((v - f) / (255 - f))^(n / 20))`.
pub open spec fn shifted_tone(v: u8, floor: nat, n: nat) -> nat {
    if v as nat <= floor {
        0
    } else {
        shifted_level_from((v - floor) as nat, (255 - floor) as nat, n, 0)
    }
}

/// The shifted level brackets `y = 255 · (a / d)^(n / 20)`: level `k` is reached and level
/// `k + 1` is not.
pub proof fn lemma_shifted_level_brackets(a: nat, d: nat, n: nat)
    ensures
        ({
            let k = shifted_level_from(a, d, n, 0);
            &&& k <= 255
            &&& k == 0 || shifted_reaches(a, d, n, k)
            &&& k == 255 || !shifted_reaches(a, d, n, k + 1)
        }),
{
    lemma_shifted_level_from_brackets(a, d, n, 0);
}

proof fn lemma_shifted_level_from_brackets(a: nat, d: nat, n: nat, k: nat)
    requires
        k <= 255,
        k == 0 || shifted_reaches(a, d, n, k),
    ensures
        ({
            let l = shifted_level_from(a, d, n, k);
            &&& k <= l <= 255
            &&& l == 0 || shifted_reaches(a, d, n, l)
            &&& l == 255 || !shifted_reaches(a, d, n, l + 1)
        }),
    decreases 255 - k,
{
    if k < 255 && shifted_reaches(a, d, n, k + 1) {
        lemma_shifted_level_from_brackets(a, d, n, k + 1);
    }
}

/// The water floor's level is the first at which the combined cumulative count reaches
/// the target: the count at that level reaches it (or the level is the last), and the
/// count one level below does not.
pub proof fn lemma_water_level_first_reaching(b1: Seq<u8>, b2: Seq<u8>)
    ensures
        ({
            let t = water_target(b1, b2);
            let f = first_level_reaching(b1, b2, t, 0);
            &&& f <= 255
            &&& f == 255 || combined_at_most(b1, b2, f as int) >= t
            &&& f == 0 || combined_at_most(b1, b2, f - 1) < t
        }),
{
    lemma_first_level_reaching(b1, b2, water_target(b1, b2), 0);
}

proof fn lemma_first_level_reaching(b1: Seq<u8>, b2: Seq<u8>, t: nat, i: nat)
    requires
        i <= 255,
        i == 0 || combined_at_most(b1, b2, i - 1) < t,
    ensures
        ({
            let f = first_level_reaching(b1, b2, t, i);
            &&& i <= f <= 255
            &&& f == 255 || combined_at_most(b1, b2, f as int) >= t
            &&& f == 0 || combined_at_most(b1, b2, f - 1) < t
        }),
    decreases 255 - i,
{
    if !(i >= 255 || combined_at_most(b1, b2, i as int) >= t) {
        lemma_first_level_reaching(b1, b2, t, i + 1);
    }
}

/// The floor-shifted tone curve with gamma `n / 20` for every byte.
fn shifted_tone_curve(floor: u8, n: usize) -> (curve: Vec<u8>)
    requires
        floor < 255,
        1 <= n <= 40,
    ensures
        curve@.len() == 256,
        forall|v: u8| #[trigger] curve@[v as int] as nat == shifted_tone(v, floor as nat, n as nat),
{
    let d: u64 = 255 - floor as u64;
    let mut thresholds: Vec<Vec<u64>> = Vec::with_capacity(256);
    thresholds.push(Vec::new());
    let mut k: u64 = 1;
    while k <= 255
        invariant
            1 <= n <= 40,
            d == 255 - floor,
            1 <= k <= 256,
            thresholds@.len() == k,
            forall|j: int|
                1 <= j < k ==> (#[trigger] thresholds@[j])@.len() == 21 + n && big_value(
                    thresholds@[j]@,
                ) == power((2 * j - 1) as nat, 20) * power(d as nat, n as nat),
        decreases 256 - k,
    {
        thresholds.push(big_power_product(2 * k - 1, 20, d, n));
        k = k + 1;
    }
    let mut curve: Vec<u8> = Vec::with_capacity(256);
    let mut v: u64 = 0;
    while v < 256
        invariant
            1 <= n <= 40,
            floor < 255,
            d == 255 - floor,
            thresholds@.len() == 256,
            forall|j: int|
                1 <= j < 256 ==> (#[trigger] thresholds@[j])@.len() == 21 + n && big_value(
                    thresholds@[j]@,
                ) == power((2 * j - 1) as nat, 20) * power(d as nat, n as nat),
            v <= 256,
            curve@.len() == v,
            forall|w: int|
                0 <= w < v ==> #[trigger] curve@[w] as nat == shifted_tone(
                    w as u8,
                    floor as nat,
                    n as nat,
                ),
        decreases 256 - v,
    {
        if v <= floor as u64 {
            curve.push(0);
        } else {
            let a: u64 = v - floor as u64;
            let lifted = big_power_product(a, n, 510, 20);
            let ghost (ga, gd, gn) = (a as nat, d as nat, n as nat);
            let mut level: usize = 0;
            let mut climbing: bool = true;
            while climbing
                invariant
                    thresholds@.len() == 256,
                    forall|j: int|
                        1 <= j < 256 ==> (#[trigger] thresholds@[j])@.len() == 21 + n && big_value(
                            thresholds@[j]@,
                        ) == power((2 * j - 1) as nat, 20) * power(gd, gn),
                    lifted@.len() == 1 + n + 20,
                    big_value(lifted@) == power(ga, gn) * power(510, 20),
                    level <= 255,
                    shifted_level_from(ga, gd, gn, 0) == if climbing {
                        shifted_level_from(ga, gd, gn, level as nat)
                    } else {
                        level as nat
                    },
                decreases 255 - level + (if climbing { 1int } else { 0int }),
            {
                if level < 255 && big_ge(&lifted, &thresholds[level + 1]) {
                    level = level + 1;
                } else {
                    climbing = false;
                }
            }
            curve.push(level as u8);
        }
        v = v + 1;
    }
    assert forall|w: u8| #[trigger] curve@[w as int] as nat == shifted_tone(w, floor as nat, n as nat) by {
        assert(curve@[w as int] as nat == shifted_tone((w as int) as u8, floor as nat, n as nat));
    }
    curve
}

/// Whether a pixel is water: both raw bands at or below the floor.
pub open spec fn is_water(floor: nat, b1: u8, b2: u8) -> bool {
    b1 as nat <= floor && b2 as nat <= floor
}

/// One pixel of the suppressed composite: black over water, else red with gamma 1.15 and
/// green with gamma 1.10 on the floor-shifted range, and the stabilized blue ratio.
pub open spec fn suppressed_rgb(floor: nat, b1: u8, b2: u8) -> (nat, nat, nat) {
    if is_water(floor, b1, b2) {
        (0, 0, 0)
    } else {
        let r = shifted_tone(b1, floor, 23);
        let g = shifted_tone(b2, floor, 22);
        (r, g, stabilized_blue(r, g))
    }
}

/// Pixel `i` of the interleaved image `out` holds the channels `px`.
pub open spec fn pixel_matches(out: Seq<u8>, i: int, px: (nat, nat, nat)) -> bool {
    &&& out[3 * i] as nat == px.0
    &&& out[3 * i + 1] as nat == px.1
    &&& out[3 * i + 2] as nat == px.2
}

/// Blue table of the suppressed composite over its red and green curves.
fn stabilized_blue_table(red: &Vec<u8>, green: &Vec<u8>) -> (blue: Vec<u8>)
    requires
        red@.len() == 256,
        green@.len() == 256,
    ensures
        blue@.len() == 65536,
        forall|b1: u8, b2: u8| #[trigger] blue@[b1 * 256 + b2] as nat == stabilized_blue(
            red@[b1 as int] as nat,
            green@[b2 as int] as nat,
        ),
{
    let tenths = threshold_table(10);
    proof {
        reveal_with_fuel(power, 11);
        assert(power(918, 10) * 263 <= u128::MAX);
    }
    let gain: u128 = power_u128(918, 10);
    let mut blue: Vec<u8> = Vec::with_capacity(65536);
    let mut b1: usize = 0;
    while b1 < 256
        invariant
            thresholds_for(tenths@, 10),
            red@.len() == 256,
            green@.len() == 256,
            gain == power(918, 10),
            power(918, 10) * 263 <= u128::MAX,
            b1 <= 256,
            blue@.len() == b1 * 256,
            forall|i: int, j: int|
                0 <= i < b1 && 0 <= j < 256 ==> #[trigger] blue@[i * 256 + j] as nat
                    == stabilized_blue(red@[i] as nat, green@[j] as nat),
        decreases 256 - b1,
    {
        let mut b2: usize = 0;
        while b2 < 256
            invariant
                thresholds_for(tenths@, 10),
                red@.len() == 256,
                green@.len() == 256,
                gain == power(918, 10),
                power(918, 10) * 263 <= u128::MAX,
                b1 < 256,
                b2 <= 256,
                blue@.len() == b1 * 256 + b2,
                forall|i: int, j: int|
                    (0 <= i < b1 && 0 <= j < 256) || (i == b1 && 0 <= j < b2)
                        ==> #[trigger] blue@[i * 256 + j] as nat == stabilized_blue(red@[i] as nat, green@[j] as nat),
            decreases 256 - b2,
        {
            let r: u128 = red[b1] as u128 + 8;
            let g: u128 = green[b2] as u128 + 8;
            proof {
                assert(r * gain <= 263 * power(918, 10)) by (nonlinear_arith)
                    requires
                        r <= 263,
                        gain == power(918, 10),
                ;
            }
            let value: u8 = level_of(r * gain, g, &tenths, Ghost(10));
            blue.push(value);
            proof {
                assert forall|i: int, j: int|
                    (0 <= i < b1 && 0 <= j < 256) || (i == b1 && 0 <= j < b2 + 1)
                        implies #[trigger] blue@[i * 256 + j] as nat == stabilized_blue(red@[i] as nat, green@[j] as nat) by {
                    if i == b1 && j == b2 {
                        assert(i * 256 + j == b1 * 256 + b2);
                    } else {
                        assert(i * 256 + j < b1 * 256 + b2) by (nonlinear_arith)
                            requires
                                (0 <= i < b1 && 0 <= j < 256) || (i == b1 && 0 <= j < b2),
                        ;
                    }
                }
            }
            b2 = b2 + 1;
        }
        b1 = b1 + 1;
    }
    assert forall|x: u8, y: u8| #[trigger] blue@[x * 256 + y] as nat == stabilized_blue(
        red@[x as int] as nat,
        green@[y as int] as nat,
    ) by {
        assert(blue@[(x as int) * 256 + (y as int)] as nat == stabilized_blue(red@[x as int] as nat, green@[y as int] as nat));
    }
    blue
}

/// Water-suppressed composite for bands scaled by the tamed or CLAHE strategies. Pixels
/// where both raw bands lie at or below the water floor are black. Elsewhere red is
/// `round(255 · s1^1.15)` and green `round(255 · s2^1.10)` with `s = (v - floor) / (255 - floor)`
/// (0 at or below the floor), and blue is `round(255 · 0.18 · ((red + 8) / (green + 8))^0.1)`.
pub fn create_synthetic_rgb_suppressed(band1_data: &[u8], band2_data: &[u8]) -> (out: Vec<u8>)
    requires
        band1_data@.len() == band2_data@.len(),
        3 * band1_data@.len() <= usize::MAX,
    ensures
        out@.len() == 3 * band1_data@.len(),
        forall|i: int|
            0 <= i < band1_data@.len() ==> #[trigger] pixel_matches(out@, i, suppressed_rgb(water_floor(band1_data@, band2_data@), band1_data@[i], band2_data@[i])),
{
    let floor: u8 = suppression_floor(band1_data, band2_data);
    let red = shifted_tone_curve(floor, 23);
    let green = shifted_tone_curve(floor, 22);
    let blue = stabilized_blue_table(&red, &green);
    let ghost f = floor as nat;
    let n: usize = band1_data.len();
    let mut out: Vec<u8> = Vec::with_capacity(3 * n);
    let mut i: usize = 0;
    while i < n
        invariant
            n == band1_data@.len(),
            band1_data@.len() == band2_data@.len(),
            f == water_floor(band1_data@, band2_data@),
            f == floor as nat,
            red@.len() == 256,
            green@.len() == 256,
            blue@.len() == 65536,
            forall|v: u8| #[trigger] red@[v as int] as nat == shifted_tone(v, f, 23),
            forall|v: u8| #[trigger] green@[v as int] as nat == shifted_tone(v, f, 22),
            forall|x: u8, y: u8| #[trigger] blue@[x * 256 + y] as nat == stabilized_blue(
                red@[x as int] as nat,
                green@[y as int] as nat,
            ),
            i <= n,
            out@.len() == 3 * i,
            forall|k: int|
                0 <= k < i ==> #[trigger] pixel_matches(out@, k, suppressed_rgb(f, band1_data@[k], band2_data@[k])),
        decreases n - i,
    {
        let v1: u8 = band1_data[i];
        let v2: u8 = band2_data[i];
        let ghost prev = out@;
        if v1 <= floor && v2 <= floor {
            out.push(0);
            out.push(0);
            out.push(0);
            assert(is_water(f, v1, v2));
            assert(pixel_matches(out@, i as int, suppressed_rgb(f, v1, v2)));
        } else {
            out.push(red[v1 as usize]);
            out.push(green[v2 as usize]);
            out.push(blue[v1 as usize * 256 + v2 as usize]);
            proof {
                assert(red@[v1 as int] as nat == shifted_tone(v1, f, 23));
                assert(green@[v2 as int] as nat == shifted_tone(v2, f, 22));
                assert(blue@[v1 * 256 + v2] as nat == stabilized_blue(red@[v1 as int] as nat, green@[v2 as int] as nat));
                assert(!is_water(f, v1, v2));
                assert(pixel_matches(out@, i as int, suppressed_rgb(f, v1, v2)));
            }
        }
        proof {
            assert forall|k: int| 0 <= k < i + 1 implies #[trigger] pixel_matches(out@, k, suppressed_rgb(f, band1_data@[k], band2_data@[k])) by {
                if k < i {
                    assert(pixel_matches(prev, k, suppressed_rgb(f, band1_data@[k], band2_data@[k])));
                    assert(out@[3 * k] == prev[3 * k]);
                    assert(out@[3 * k + 1] == prev[3 * k + 1]);
                    assert(out@[3 * k + 2] == prev[3 * k + 2]);
                }
            }
        }
        i = i + 1;
    }
    out
}

/// Composition tuned to the autoscale strategy: the water-suppressed composite after the
/// tamed and CLAHE strategies, the mode's composite otherwise.
pub fn create_synthetic_rgb_by_mode_and_strategy(
    mode: SyntheticRgbMode,
    strategy: AutoscaleStrategy,
    band1_data: &[u8],
    band2_data: &[u8],
) -> (out: Vec<u8>)
    requires
        band1_data@.len() == band2_data@.len(),
        3 * band1_data@.len() <= usize::MAX,
    ensures
        out@.len() == 3 * band1_data@.len(),
        strategy == AutoscaleStrategy::Tamed || strategy == AutoscaleStrategy::Clahe ==> forall|i: int|
            0 <= i < band1_data@.len() ==> #[trigger] pixel_matches(out@, i, suppressed_rgb(water_floor(band1_data@, band2_data@), band1_data@[i], band2_data@[i])),
        !(strategy == AutoscaleStrategy::Tamed || strategy == AutoscaleStrategy::Clahe) ==> forall|i: int|
            0 <= i < band1_data@.len() ==> #[trigger] pixel_matches(
                out@,
                i,
                default_rgb(band1_data@[i], band2_data@[i]),
            ),
{
    match strategy {
        AutoscaleStrategy::Tamed => create_synthetic_rgb_suppressed(band1_data, band2_data),
        AutoscaleStrategy::Clahe => create_synthetic_rgb_suppressed(band1_data, band2_data),
        _ => create_synthetic_rgb_by_mode(mode, band1_data, band2_data),
    }
}

} // verus!
