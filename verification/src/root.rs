//! Integer square roots.

use vstd::prelude::*;

verus! {

/// Whether `s` is the square root of `n`, rounded down.
pub open spec fn is_floor_sqrt(n: int, s: int) -> bool {
    0 <= s && s * s <= n < (s + 1) * (s + 1)
}

/// The square root of `n`, rounded down.
pub open spec fn floor_sqrt(n: int) -> int {
    choose|s: int| is_floor_sqrt(n, s)
}

/// Squaring keeps the order of non-negative numbers.
pub proof fn lemma_square_monotonic(a: int, b: int)
    by (nonlinear_arith)
    requires
        0 <= a <= b,
    ensures
        a * a <= b * b,
{
}

/// A number has at most one rounded-down square root, and `floor_sqrt`
/// names it.
pub proof fn lemma_floor_sqrt_unique(n: int, s: int)
    requires
        is_floor_sqrt(n, s),
    ensures
        floor_sqrt(n) == s,
{
    let t = floor_sqrt(n);
    assert(is_floor_sqrt(n, t));
    if t < s {
        lemma_square_monotonic(t + 1, s);
    } else if s < t {
        lemma_square_monotonic(s + 1, t);
    }
}

/// Every non-negative number has a rounded-down square root.
pub proof fn lemma_floor_sqrt_exists(n: int)
    requires
        0 <= n,
    ensures
        is_floor_sqrt(n, floor_sqrt(n)),
    decreases n,
{
    if n == 0 {
        assert(is_floor_sqrt(0, 0));
    } else {
        lemma_floor_sqrt_exists(n - 1);
        let s = floor_sqrt(n - 1);
        if n < (s + 1) * (s + 1) {
            assert(is_floor_sqrt(n, s));
        } else {
            assert((s + 1) * (s + 1) < (s + 2) * (s + 2)) by (nonlinear_arith)
                requires
                    0 <= s,
            ;
            assert(is_floor_sqrt(n, s + 1));
        }
    }
}

/// The rounded-down square root of `n` is at least any `r` whose square is
/// at most `n`.
pub proof fn lemma_floor_sqrt_lower(n: int, r: int)
    requires
        0 <= r,
        r * r <= n,
    ensures
        r <= floor_sqrt(n),
{
    assert(0 <= r * r) by (nonlinear_arith);
    lemma_floor_sqrt_exists(n);
    let s = floor_sqrt(n);
    if s < r {
        lemma_square_monotonic(s + 1, r);
    }
}

/// The rounded-down square root of `n` is less than any positive `r` whose
/// square is more than `n`.
pub proof fn lemma_floor_sqrt_upper(n: int, r: int)
    requires
        0 <= n,
        0 <= r,
        n < r * r,
    ensures
        floor_sqrt(n) < r,
{
    lemma_floor_sqrt_exists(n);
    let s = floor_sqrt(n);
    if r <= s {
        lemma_square_monotonic(r, s);
    }
}

/// The square root of `n`, rounded down.
pub fn isqrt(n: u128) -> (s: u64)
    ensures
        is_floor_sqrt(n as int, s as int),
        s == floor_sqrt(n as int),
{
    let mut lo: u128 = 0;
    let mut hi: u128 = 0x1_0000_0000_0000_0000;
    while hi - lo > 1
        invariant
            lo < hi <= 0x1_0000_0000_0000_0000,
            lo * lo <= n,
            n < hi * hi,
        decreases hi - lo,
    {
        let mid: u128 = lo + (hi - lo) / 2;
        assert(mid * mid <= 0xffff_ffff_ffff_ffff * 0xffff_ffff_ffff_ffff) by (nonlinear_arith)
            requires
                0 <= mid <= 0xffff_ffff_ffff_ffff,
        ;
        if mid * mid <= n {
            lo = mid;
        } else {
            hi = mid;
        }
    }
    proof {
        lemma_floor_sqrt_unique(n as int, lo as int);
    }
    lo as u64
}

} // verus!
