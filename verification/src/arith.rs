//! Integer arithmetic with exact contracts: saturating quotients and square roots.

use vstd::prelude::*;

verus! {

/// `n / d` rounded down and capped at `u64::MAX`; zero for a zero divisor.
pub open spec fn saturating_quotient(n: nat, d: nat) -> u64 {
    if d == 0 {
        0
    } else if n / d > u64::MAX {
        u64::MAX
    } else {
        (n / d) as u64
    }
}

/// A quotient is at least `k` when the dividend is at least `k` times the divisor.
pub proof fn lemma_quotient_at_least(n: int, d: int, k: int)
    requires
        d > 0,
        n >= k * d,
    ensures
        n / d >= k,
{
    vstd::arithmetic::div_mod::lemma_div_is_ordered(k * d, n, d);
    vstd::arithmetic::div_mod::lemma_div_multiples_vanish(k, d);
    assert(k * d == d * k) by (nonlinear_arith);
}

/// A quotient is at most `k` when the dividend is at most `k` times the divisor.
pub proof fn lemma_quotient_at_most(n: int, d: int, k: int)
    requires
        d > 0,
        0 <= n <= k * d,
    ensures
        n / d <= k,
{
    vstd::arithmetic::div_mod::lemma_div_is_ordered(n, k * d, d);
    vstd::arithmetic::div_mod::lemma_div_multiples_vanish(k, d);
    assert(k * d == d * k) by (nonlinear_arith);
}

/// `x * m / d`, rounded down and capped at `u64::MAX`; zero for a zero divisor.
pub fn mul_div_saturating(x: u128, m: u64, d: u64) -> (r: u64)
    ensures
        r == saturating_quotient((x * m) as nat, d as nat),
{
    if d == 0 {
        return 0;
    }
    match x.checked_mul(m as u128) {
        Some(product) => {
            let q: u128 = product / (d as u128);
            if q > u64::MAX as u128 {
                u64::MAX
            } else {
                q as u64
            }
        },
        None => {
            proof {
                let k = 0x1_0000_0000_0000_0000int;
                assert(k * d <= x * m) by (nonlinear_arith)
                    requires
                        0 < d <= 0xFFFF_FFFF_FFFF_FFFF,
                        x * m > 0xFFFF_FFFF_FFFF_FFFF_FFFF_FFFF_FFFF_FFFF,
                        k == 0x1_0000_0000_0000_0000,
                ;
                lemma_quotient_at_least(x * m, d as int, k);
            }
            u64::MAX
        },
    }
}

/// Whether `r` is the square root of `n`, rounded down.
pub open spec fn is_floor_sqrt(n: nat, r: nat) -> bool {
    r * r <= n < (r + 1) * (r + 1)
}

/// The square root of `v`, rounded down.
pub fn isqrt(v: u128) -> (r: u64)
    ensures
        is_floor_sqrt(v as nat, r as nat),
{
    let mut lo: u128 = 0;
    let mut hi: u128 = 0x1_0000_0000_0000_0000;
    assert(hi * hi > v) by (nonlinear_arith)
        requires
            hi == 0x1_0000_0000_0000_0000,
            v <= 0xFFFF_FFFF_FFFF_FFFF_FFFF_FFFF_FFFF_FFFF,
    ;
    while hi - lo > 1
        invariant
            lo < hi <= 0x1_0000_0000_0000_0000,
            lo * lo <= v < hi * hi,
        decreases hi - lo,
    {
        let mid: u128 = lo + (hi - lo) / 2;
        proof {
            vstd::arithmetic::mul::lemma_mul_upper_bound(
                mid as int,
                0xFFFF_FFFF_FFFF_FFFF,
                mid as int,
                0xFFFF_FFFF_FFFF_FFFF,
            );
        }
        if mid * mid <= v {
            lo = mid;
        } else {
            hi = mid;
        }
    }
    lo as u64
}

} // verus!
