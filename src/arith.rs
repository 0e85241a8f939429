//! Natural-number powers, with the bounds that keep their machine evaluation exact.
use vstd::prelude::*;

verus! {

/// `b` raised to the `e`-th power.
pub open spec fn power(b: nat, e: nat) -> nat
    decreases e,
{
    if e == 0 {
        1
    } else {
        b * power(b, (e - 1) as nat)
    }
}

pub proof fn lemma_power_mono_base(a: nat, b: nat, e: nat)
    requires
        a <= b,
    ensures
        power(a, e) <= power(b, e),
    decreases e,
{
    if e > 0 {
        lemma_power_mono_base(a, b, (e - 1) as nat);
        let pa = power(a, (e - 1) as nat);
        let pb = power(b, (e - 1) as nat);
        assert(a * pa <= b * pb) by (nonlinear_arith)
            requires
                a <= b,
                pa <= pb,
        ;
    }
}

pub proof fn lemma_power_positive(b: nat, e: nat)
    requires
        b >= 1,
    ensures
        power(b, e) >= 1,
    decreases e,
{
    if e > 0 {
        lemma_power_positive(b, (e - 1) as nat);
        let p = power(b, (e - 1) as nat);
        assert(b * p >= 1) by (nonlinear_arith)
            requires
                b >= 1,
                p >= 1,
        ;
    }
}

pub proof fn lemma_power_mono_exp(b: nat, i: nat, e: nat)
    requires
        b >= 1,
        i <= e,
    ensures
        power(b, i) <= power(b, e),
    decreases e - i,
{
    if i < e {
        lemma_power_mono_exp(b, i, (e - 1) as nat);
        lemma_power_positive(b, (e - 1) as nat);
        let p = power(b, (e - 1) as nat);
        assert(p <= b * p) by (nonlinear_arith)
            requires
                b >= 1,
                p >= 1,
        ;
    }
}

pub proof fn lemma_power_add(b: nat, i: nat, j: nat)
    ensures
        power(b, i) * power(b, j) == power(b, i + j),
    decreases i,
{
    if i > 0 {
        lemma_power_add(b, (i - 1) as nat, j);
        let p = power(b, (i - 1) as nat);
        let q = power(b, j);
        assert((b * p) * q == b * (p * q)) by (nonlinear_arith);
        assert(((i - 1) as nat + j) as nat == (i + j - 1) as nat);
        assert(power(b, i + j) == b * power(b, (i + j - 1) as nat));
        assert(power(b, i) == b * p);
        assert(power(b, (i + j - 1) as nat) == p * q);
    } else {
        assert(power(b, i) == 1);
        assert(1 * power(b, j) == power(b, j));
    }
}

/// `b` to the `e`-th power, evaluated exactly.
pub fn power_u128(b: u128, e: u32) -> (r: u128)
    requires
        power(b as nat, e as nat) <= u128::MAX,
    ensures
        r == power(b as nat, e as nat),
{
    let mut acc: u128 = 1;
    let mut i: u32 = 0;
    while i < e
        invariant
            i <= e,
            acc == power(b as nat, i as nat),
            power(b as nat, e as nat) <= u128::MAX,
        decreases e - i,
    {
        proof {
            if b >= 1 {
                lemma_power_mono_exp(b as nat, (i + 1) as nat, e as nat);
            }
            assert(power(b as nat, (i + 1) as nat) == b * power(b as nat, i as nat));
        }
        acc = b * acc;
        i = i + 1;
    }
    acc
}

} // verus!
