//! Integer square roots, rounded down and rounded up.

use vstd::prelude::*;

verus! {

/// `r` is the square root of `n`, rounded down.
pub open spec fn is_floor_root(n: nat, r: nat) -> bool {
    r * r <= n < (r + 1) * (r + 1)
}

/// `r` is the square root of `n`, rounded up.
pub open spec fn is_ceil_root(n: nat, r: nat) -> bool {
    n <= r * r && (r > 0 ==> (r - 1) * (r - 1) < n)
}

/// Squaring keeps the order of natural numbers.
pub proof fn lemma_square_monotone(a: int, b: int)
    requires
        0 <= a <= b,
    ensures
        a * a <= b * b,
{
    assert(a * a <= b * b) by (nonlinear_arith)
        requires
            0 <= a <= b,
    ;
}

/// The square root of `n`, rounded down.
pub fn floor_sqrt(n: u32) -> (r: u32)
    ensures
        is_floor_root(n as nat, r as nat),
        r < 65536,
{
    let mut lo: u64 = 0;
    let mut hi: u64 = 65536;
    assert(65536u64 * 65536u64 > n) by (nonlinear_arith)
        requires
            n <= u32::MAX,
    ;
    while hi - lo > 1
        invariant
            lo < hi <= 65536,
            lo * lo <= n < hi * hi,
        decreases hi - lo,
    {
        let mid: u64 = lo + (hi - lo) / 2;
        assert(mid * mid <= 65536 * 65536) by (nonlinear_arith)
            requires
                mid <= 65536,
        ;
        if mid * mid <= n as u64 {
            lo = mid;
        } else {
            hi = mid;
        }
    }
    lo as u32
}

/// The square root of `n`, rounded up.
pub fn ceil_sqrt(n: u32) -> (r: u32)
    ensures
        is_ceil_root(n as nat, r as nat),
        r <= 65536,
{
    let f: u32 = floor_sqrt(n);
    assert(f * f <= u32::MAX) by (nonlinear_arith)
        requires
            f * f <= n,
            n <= u32::MAX,
    ;
    if f * f == n {
        assert(f > 0 ==> (f - 1) * (f - 1) < f * f) by (nonlinear_arith);
        f
    } else {
        assert((f + 1 - 1) * (f + 1 - 1) == f * f);
        f + 1
    }
}

} // verus!
