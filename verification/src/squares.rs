//! Facts about squares and products of integers, for the proofs about
//! distances.

use vstd::prelude::*;
use crate::fixed::magnitude;

verus! {

/// A number and its magnitude have the same square.
pub proof fn lemma_magnitude_square(x: int)
    by (nonlinear_arith)
    ensures
        magnitude(x) * magnitude(x) == x * x,
        0 <= magnitude(x),
{
}

/// Non-negative numbers come in the order of their squares.
pub proof fn lemma_root_order(a: int, b: int)
    by (nonlinear_arith)
    requires
        0 <= a,
        0 <= b,
        a * a <= b * b,
    ensures
        a <= b,
{
}

/// Products of non-negative numbers come in the order of their factors.
pub proof fn lemma_product_order(a: int, b: int, c: int, d: int)
    by (nonlinear_arith)
    requires
        0 <= a <= c,
        0 <= b <= d,
    ensures
        a * b <= c * d,
{
}

/// A common positive factor can be taken out of an inequality.
pub proof fn lemma_cancel_factor(a: int, b: int, n: int)
    by (nonlinear_arith)
    requires
        0 < n,
        a * n <= b * n,
    ensures
        a <= b,
{
}

/// Sums of two squares keep the order of their non-negative roots.
pub proof fn lemma_sum_of_squares_monotonic(x: int, y: int, u: int, v: int)
    by (nonlinear_arith)
    requires
        0 <= u <= x,
        0 <= v <= y,
    ensures
        u * u + v * v <= x * x + y * y,
{
}

/// The sum of two non-negative numbers is at most three halves of any bound
/// on the root of the sum of their squares.
pub proof fn lemma_sum_under_diagonal(u: int, v: int, w: int)
    requires
        0 <= u,
        0 <= v,
        0 <= w,
        u * u + v * v <= w * w,
    ensures
        2 * (u + v) <= 3 * w,
{
    assert((2 * (u + v)) * (2 * (u + v)) + 4 * ((u - v) * (u - v)) == 8 * (u * u + v * v))
        by (nonlinear_arith);
    assert(0 <= (u - v) * (u - v)) by (nonlinear_arith);
    assert(0 <= w * w) by (nonlinear_arith);
    assert((3 * w) * (3 * w) == 9 * (w * w)) by (nonlinear_arith);
    lemma_root_order(2 * (u + v), 3 * w);
}

/// Moving both roots of a sum of squares by two moves a bound on the root
/// of the sum by at most three.
pub proof fn lemma_shifted_squares(u: int, v: int, w: int)
    requires
        0 <= u,
        0 <= v,
        0 <= w,
        u * u + v * v <= w * w,
    ensures
        (u + 2) * (u + 2) + (v + 2) * (v + 2) <= (w + 3) * (w + 3),
{
    lemma_sum_under_diagonal(u, v, w);
    assert((u + 2) * (u + 2) == u * u + 4 * u + 4) by (nonlinear_arith);
    assert((v + 2) * (v + 2) == v * v + 4 * v + 4) by (nonlinear_arith);
    assert((w + 3) * (w + 3) == w * w + 6 * w + 9) by (nonlinear_arith);
}

/// Splitting a bound on a stretched length.
///
/// Where `m + c` is at most `m * (s + o) / sqrt(n)` and `sqrt(n)` is at
/// least `s`, the part `c` is at most `m * o / sqrt(n)`.
pub proof fn lemma_split_upper(m: int, c: int, n: int, s: int, o: int, r: int)
    requires
        0 <= m,
        0 <= c,
        0 <= s,
        0 <= o,
        r == s + o,
        s * s <= n,
        (m + c) * (m + c) * n <= (m * r) * (m * r),
    ensures
        c * c * n <= (m * o) * (m * o),
{
    let p = c * c * n;
    let q = (m * o) * (m * o);
    if p > q {
        let cn = c * n;
        let mos = m * o * s;
        let ss = s * s;
        assert(0 <= q && 0 <= ss && 0 <= cn && 0 <= mos) by (nonlinear_arith)
            requires
                q == (m * o) * (m * o),
                ss == s * s,
                cn == c * n,
                mos == m * o * s,
                0 <= m,
                0 <= c,
                0 <= s,
                0 <= o,
                0 <= n,
        ;
        lemma_product_order(q, ss, p, n);
        assert(cn * cn == p * n) by (nonlinear_arith)
            requires
                cn == c * n,
                p == c * c * n,
        ;
        assert(mos * mos == q * ss) by (nonlinear_arith)
            requires
                mos == m * o * s,
                q == (m * o) * (m * o),
                ss == s * s,
        ;
        lemma_root_order(mos, cn);
        assert((m + c) * (m + c) * n == m * m * n + 2 * (m * cn) + p) by (nonlinear_arith)
            requires
                cn == c * n,
                p == c * c * n,
        ;
        assert((m * r) * (m * r) == m * m * ss + 2 * (m * mos) + q) by (nonlinear_arith)
            requires
                r == s + o,
                mos == m * o * s,
                q == (m * o) * (m * o),
                ss == s * s,
        ;
        assert(m * m * ss <= m * m * n) by (nonlinear_arith)
            requires
                ss <= n,
        ;
        assert(m * mos <= m * cn) by (nonlinear_arith)
            requires
                0 <= m,
                mos <= cn,
        ;
        assert(false);
    }
}

/// Splitting a bound on a stretched length, the other way.
///
/// Where `m + c` is at least `m * (s + o) / sqrt(n)` and `sqrt(n)` is at
/// most `s`, the part `c` is at least `m * o / sqrt(n)`.
pub proof fn lemma_split_lower(m: int, c: int, n: int, s: int, o: int, r: int)
    requires
        0 <= m,
        0 <= c,
        0 <= s,
        0 <= o,
        r == s + o,
        0 <= n <= s * s,
        (m + c) * (m + c) * n >= (m * r) * (m * r),
    ensures
        c * c * n >= (m * o) * (m * o),
{
    let p = c * c * n;
    let q = (m * o) * (m * o);
    if p < q {
        let cn = c * n;
        let mos = m * o * s;
        let ss = s * s;
        assert(0 <= p && 0 <= ss && 0 <= cn && 0 <= mos) by (nonlinear_arith)
            requires
                p == c * c * n,
                ss == s * s,
                cn == c * n,
                mos == m * o * s,
                0 <= m,
                0 <= c,
                0 <= s,
                0 <= o,
                0 <= n,
        ;
        lemma_product_order(p, n, q, ss);
        assert(cn * cn == p * n) by (nonlinear_arith)
            requires
                cn == c * n,
                p == c * c * n,
        ;
        assert(mos * mos == q * ss) by (nonlinear_arith)
            requires
                mos == m * o * s,
                q == (m * o) * (m * o),
                ss == s * s,
        ;
        lemma_root_order(cn, mos);
        assert((m + c) * (m + c) * n == m * m * n + 2 * (m * cn) + p) by (nonlinear_arith)
            requires
                cn == c * n,
                p == c * c * n,
        ;
        assert((m * r) * (m * r) == m * m * ss + 2 * (m * mos) + q) by (nonlinear_arith)
            requires
                r == s + o,
                mos == m * o * s,
                q == (m * o) * (m * o),
                ss == s * s,
        ;
        assert(m * m * n <= m * m * ss) by (nonlinear_arith)
            requires
                n <= ss,
        ;
        assert(m * cn <= m * mos) by (nonlinear_arith)
            requires
                0 <= m,
                cn <= mos,
        ;
        assert(false);
    }
}

} // verus!
