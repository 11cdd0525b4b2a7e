//! Verified integer square roots, used to compute the curvature parameter of
//! the constant-acceleration curve at a fixed scale.

use vstd::prelude::*;

verus! {

/// `r` is the rounded-down square root of `x`.
pub open spec fn is_isqrt(x: int, r: int) -> bool {
    0 <= r && r * r <= x && x < (r + 1) * (r + 1)
}

/// The rounded-down square root of a nonnegative integer.
pub open spec fn sqrt_floor(x: int) -> int {
    choose|r: int| is_isqrt(x, r)
}

/// The rounded-up square root of a nonnegative integer.
pub open spec fn sqrt_ceil(x: int) -> int {
    if sqrt_floor(x) * sqrt_floor(x) == x {
        sqrt_floor(x)
    } else {
        sqrt_floor(x) + 1
    }
}

/// A number has at most one rounded-down square root.
pub proof fn lemma_isqrt_unique(x: int, r1: int, r2: int)
    requires
        is_isqrt(x, r1),
        is_isqrt(x, r2),
    ensures
        r1 == r2,
{
    assert(r1 == r2) by (nonlinear_arith)
        requires
            0 <= r1,
            0 <= r2,
            r1 * r1 <= x,
            x < (r1 + 1) * (r1 + 1),
            r2 * r2 <= x,
            x < (r2 + 1) * (r2 + 1),
    ;
}

/// Every nonnegative integer has a rounded-down square root, and `sqrt_floor`
/// denotes it.
pub proof fn lemma_isqrt_exists(x: int)
    requires
        0 <= x,
    ensures
        is_isqrt(x, sqrt_floor(x)),
    decreases x,
{
    if x == 0 {
        assert(is_isqrt(0, 0));
        assert(exists|r: int| is_isqrt(x, r));
    } else {
        lemma_isqrt_exists(x - 1);
        let p = sqrt_floor(x - 1);
        if x < (p + 1) * (p + 1) {
            assert(is_isqrt(x, p));
            assert(exists|r: int| is_isqrt(x, r));
        } else {
            assert(x == (p + 1) * (p + 1));
            assert(x < (p + 2) * (p + 2)) by (nonlinear_arith)
                requires
                    x == (p + 1) * (p + 1),
                    0 <= p,
            ;
            assert(is_isqrt(x, p + 1));
            assert(exists|r: int| is_isqrt(x, r));
        }
    }
}

/// Rounded-down square root by bisection.
pub fn isqrt(x: u128) -> (r: u128)
    ensures
        is_isqrt(x as int, r as int),
        r as int == sqrt_floor(x as int),
        r < 0x1_0000_0000_0000_0000,
{
    let mut lo: u128 = 0;
    let mut hi: u128 = 0x1_0000_0000_0000_0000;
    proof {
        assert((x as int) < 0x1_0000_0000_0000_0000 * 0x1_0000_0000_0000_0000) by (nonlinear_arith)
            requires
                x <= u128::MAX,
        ;
    }
    while hi - lo > 1
        invariant
            lo < hi <= 0x1_0000_0000_0000_0000,
            (lo as int) * (lo as int) <= x as int,
            (x as int) < (hi as int) * (hi as int),
        decreases hi - lo,
    {
        let mid = lo + (hi - lo) / 2;
        proof {
            assert(lo < mid < hi);
            assert((mid as int) * (mid as int) < 0x1_0000_0000_0000_0000
                * 0x1_0000_0000_0000_0000) by (nonlinear_arith)
                requires
                    0 <= (mid as int) < 0x1_0000_0000_0000_0000,
            ;
        }
        let sq = mid * mid;
        if sq <= x {
            lo = mid;
        } else {
            hi = mid;
        }
    }
    proof {
        assert(hi == lo + 1);
        assert(is_isqrt(x as int, lo as int));
        lemma_isqrt_exists(x as int);
        lemma_isqrt_unique(x as int, lo as int, sqrt_floor(x as int));
    }
    lo
}

/// Rounded-up square root by bisection.
pub fn isqrt_ceil(x: u128) -> (r: u128)
    ensures
        r as int == sqrt_ceil(x as int),
        r <= 0x1_0000_0000_0000_0000,
{
    let f = isqrt(x);
    let sq = f * f;
    if sq < x {
        f + 1
    } else {
        f
    }
}

} // verus!
