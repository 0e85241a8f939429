//! Unbounded naturals as little-endian 64-bit limbs: just enough to compare exact products
//! of powers that exceed 128 bits.
use vstd::prelude::*;

use crate::arith::{lemma_power_positive, power};

verus! {

/// Radix of one limb.
pub open spec fn radix() -> nat {
    0x1_0000_0000_0000_0000
}

/// Value of little-endian limbs.
pub open spec fn big_value(s: Seq<u64>) -> nat
    decreases s.len(),
{
    if s.len() == 0 {
        0
    } else {
        big_value(s.drop_last()) + s.last() as nat * power(radix(), (s.len() - 1) as nat)
    }
}

proof fn lemma_big_value_bounded(s: Seq<u64>)
    ensures
        big_value(s) < power(radix(), s.len()),
    decreases s.len(),
{
    if s.len() > 0 {
        lemma_big_value_bounded(s.drop_last());
        let p = power(radix(), (s.len() - 1) as nat);
        let l = s.last() as nat;
        assert(power(radix(), s.len()) == radix() * p);
        assert(big_value(s.drop_last()) + l * p < radix() * p) by (nonlinear_arith)
            requires
                big_value(s.drop_last()) < p,
                l < radix(),
        ;
    }
}

/// `x · m`, one limb longer than `x`.
pub fn mul_small(x: &Vec<u64>, m: u64) -> (out: Vec<u64>)
    requires
        x@.len() < usize::MAX,
    ensures
        out@.len() == x@.len() + 1,
        big_value(out@) == big_value(x@) * m,
{
    let n: usize = x.len();
    let mut out: Vec<u64> = Vec::with_capacity(n + 1);
    let mut carry: u64 = 0;
    let mut i: usize = 0;
    assert(x@.take(0) =~= Seq::<u64>::empty());
    assert(big_value(Seq::<u64>::empty()) == 0);
    assert(big_value(out@) == 0);
    while i < n
        invariant
            n == x@.len(),
            i <= n,
            out@.len() == i,
            big_value(out@) + carry as nat * power(radix(), i as nat) == big_value(
                x@.take(i as int),
            ) * m,
        decreases n - i,
    {
        assert(x@[i as int] as int * m as int + carry as int <= u128::MAX) by (nonlinear_arith)
            requires
                x@[i as int] <= u64::MAX,
                m <= u64::MAX,
                carry <= u64::MAX,
        ;
        let t: u128 = x[i] as u128 * m as u128 + carry as u128;
        let lo: u64 = (t % 0x1_0000_0000_0000_0000u128) as u64;
        let hi: u64 = (t / 0x1_0000_0000_0000_0000u128) as u64;
        let ghost prev = out@;
        let ghost p = power(radix(), i as nat);
        proof {
            assert(t == lo as nat + hi as nat * radix()) by (nonlinear_arith)
                requires
                    lo as int == t as int % 0x1_0000_0000_0000_0000,
                    hi as int == t as int / 0x1_0000_0000_0000_0000,
            ;
            assert(x@.take(i as int + 1).drop_last() =~= x@.take(i as int));
            assert(power(radix(), (i + 1) as nat) == radix() * p);
        }
        out.push(lo);
        proof {
            assert(out@.drop_last() =~= prev);
            assert(big_value(out@) == big_value(prev) + lo as nat * p);
            assert(big_value(x@.take(i as int + 1)) == big_value(x@.take(i as int)) + x[i as int] as nat * p);
            assert(big_value(prev) + lo as nat * p + hi as nat * (radix() * p) == big_value(x@.take(i as int)) * m + x[i as int] as nat * p * m) by (nonlinear_arith)
                requires
                    big_value(prev) + carry as nat * p == big_value(x@.take(i as int)) * m,
                    t == lo as nat + hi as nat * radix(),
                    t == x[i as int] as nat * m + carry as nat,
            ;
            assert((big_value(x@.take(i as int)) + x[i as int] as nat * p) * m == big_value(x@.take(i as int)) * m + x[i as int] as nat * p * m) by (nonlinear_arith);
        }
        carry = hi;
        i = i + 1;
    }
    let ghost prev = out@;
    out.push(carry);
    proof {
        assert(out@.drop_last() =~= prev);
        assert(x@.take(n as int) =~= x@);
    }
    out
}

/// `power(b1, e1) · power(b2, e2)` in `1 + e1 + e2` limbs.
pub fn big_power_product(b1: u64, e1: usize, b2: u64, e2: usize) -> (out: Vec<u64>)
    requires
        e1 + e2 < usize::MAX,
    ensures
        out@.len() == 1 + e1 + e2,
        big_value(out@) == power(b1 as nat, e1 as nat) * power(b2 as nat, e2 as nat),
{
    let mut out: Vec<u64> = Vec::new();
    out.push(1);
    proof {
        assert(out@.drop_last() =~= Seq::<u64>::empty());
        assert(big_value(Seq::<u64>::empty()) == 0);
        assert(power(radix(), 0) == 1);
        assert(big_value(out@) == 1);
        assert(power(b1 as nat, 0) == 1);
    }
    let mut i: usize = 0;
    while i < e1
        invariant
            i <= e1,
            e1 + e2 < usize::MAX,
            out@.len() == 1 + i,
            big_value(out@) == power(b1 as nat, i as nat),
        decreases e1 - i,
    {
        out = mul_small(&out, b1);
        proof {
            assert(power(b1 as nat, (i + 1) as nat) == b1 * power(b1 as nat, i as nat));
            assert(power(b1 as nat, i as nat) * b1 == b1 * power(b1 as nat, i as nat)) by (nonlinear_arith);
        }
        i = i + 1;
    }
    let mut j: usize = 0;
    assert(power(b2 as nat, 0) == 1);
    assert(power(b1 as nat, e1 as nat) * 1 == power(b1 as nat, e1 as nat));
    while j < e2
        invariant
            j <= e2,
            e1 + e2 < usize::MAX,
            out@.len() == 1 + e1 + j,
            big_value(out@) == power(b1 as nat, e1 as nat) * power(b2 as nat, j as nat),
        decreases e2 - j,
    {
        out = mul_small(&out, b2);
        proof {
            let pa = power(b1 as nat, e1 as nat);
            let pb = power(b2 as nat, j as nat);
            assert(power(b2 as nat, (j + 1) as nat) == b2 * pb);
            assert(pa * pb * b2 == pa * (b2 * pb)) by (nonlinear_arith);
        }
        j = j + 1;
    }
    out
}

proof fn lemma_top_limb_decides(x: Seq<u64>, y: Seq<u64>)
    requires
        x.len() == y.len(),
        x.len() > 0,
    ensures
        x.last() > y.last() ==> big_value(x) > big_value(y),
        x.last() == y.last() ==> (big_value(x) >= big_value(y) <==> big_value(x.drop_last())
            >= big_value(y.drop_last())),
{
    let n = x.len();
    let p = power(radix(), (n - 1) as nat);
    lemma_big_value_bounded(x.drop_last());
    lemma_big_value_bounded(y.drop_last());
    lemma_power_positive(radix(), (n - 1) as nat);
    if x.last() > y.last() {
        assert(big_value(y.drop_last()) + y.last() as nat * p < big_value(x.drop_last()) + x.last() as nat * p) by (nonlinear_arith)
            requires
                big_value(y.drop_last()) < p,
                x.last() > y.last(),
                p >= 1,
        ;
    }
}

/// Whether `big_value(x) >= big_value(y)`, for limb sequences of one length.
pub fn big_ge(x: &Vec<u64>, y: &Vec<u64>) -> (r: bool)
    requires
        x@.len() == y@.len(),
    ensures
        r == (big_value(x@) >= big_value(y@)),
{
    let mut i: usize = x.len();
    assert(x@.take(i as int) =~= x@);
    assert(y@.take(i as int) =~= y@);
    while i > 0 && x[i - 1] == y[i - 1]
        invariant
            x@.len() == y@.len(),
            i <= x@.len(),
            (big_value(x@) >= big_value(y@)) == (big_value(x@.take(i as int)) >= big_value(
                y@.take(i as int),
            )),
        decreases i,
    {
        proof {
            lemma_top_limb_decides(x@.take(i as int), y@.take(i as int));
            assert(x@.take(i as int).drop_last() =~= x@.take(i - 1));
            assert(y@.take(i as int).drop_last() =~= y@.take(i - 1));
        }
        i = i - 1;
    }
    if i == 0 {
        assert(x@.take(0) =~= Seq::<u64>::empty());
        assert(y@.take(0) =~= Seq::<u64>::empty());
        true
    } else {
        proof {
            lemma_top_limb_decides(x@.take(i as int), y@.take(i as int));
            lemma_top_limb_decides(y@.take(i as int), x@.take(i as int));
        }
        x[i - 1] > y[i - 1]
    }
}

} // verus!
