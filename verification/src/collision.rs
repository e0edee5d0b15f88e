//! How two overlapping bodies are pushed apart and exchange their motion.

use vstd::prelude::*;
use vstd::arithmetic::div_mod::{lemma_fundamental_div_mod, lemma_mod_bound};
use crate::components::{AsteroidBundle, Body, Velocity, MAX_RADIUS};
use crate::fixed::{magnitude, saturate, saturate_i128, Fixed, ONE};
use crate::root::{
    floor_sqrt, is_floor_sqrt, isqrt, lemma_floor_sqrt_exists, lemma_floor_sqrt_lower,
    lemma_floor_sqrt_unique, lemma_floor_sqrt_upper,
};
use crate::squares::{
    lemma_cancel_factor, lemma_magnitude_square, lemma_product_order, lemma_root_order,
    lemma_shifted_squares, lemma_split_lower, lemma_split_upper, lemma_sum_of_squares_monotonic,
};
use crate::vector::{Point, Vec2};

verus! {

/// The sum of the radii of two bodies: how far apart their centres are when
/// the bodies touch.
pub open spec fn reach(a: Body, b: Body) -> int {
    a.radius + b.radius
}

/// The square of the distance between the centres of two bodies.
pub open spec fn separation_squared(a: Body, b: Body) -> int {
    let dx = a.position.x - b.position.x;
    let dy = a.position.y - b.position.y;
    dx * dx + dy * dy
}

/// The distance between the centres of two bodies, rounded down.
pub open spec fn distance(a: Body, b: Body) -> int {
    floor_sqrt(separation_squared(a, b))
}

/// How deep two bodies reach into each other; not positive when they are
/// apart.
pub open spec fn overlap(a: Body, b: Body) -> int {
    reach(a, b) - distance(a, b)
}

/// Whether two bodies collide: they overlap and their centres differ, so
/// that there is a direction to push them along.
pub open spec fn colliding(a: Body, b: Body) -> bool {
    overlap(a, b) > 0 && distance(a, b) > 0
}

/// Whether an offset of `m` steps along one axis has grown enough once each
/// of the two bodies has moved `k` steps along that axis.
///
/// The centres are `sqrt(n)` apart and are to be `reach` apart along the
/// same line, so the offset is to grow from `m` to `m * reach / sqrt(n)`.
/// With both bodies moved it is `m + 2 * k`.
pub open spec fn stretched(m: int, k: int, reach: int, n: int) -> bool {
    (m + 2 * k) * (m + 2 * k) * n >= (m * reach) * (m * reach)
}

/// Whether `k` is the least number of steps for each body to move along
/// one axis so that the offset has grown enough.
pub open spec fn is_push_steps(m: int, reach: int, n: int, k: int) -> bool {
    &&& 0 <= k
    &&& stretched(m, k, reach, n)
    &&& k > 0 ==> !stretched(m, k - 1, reach, n)
}

/// The least number of steps for each body to move along one axis: the
/// matching component of half the overlap along the unit normal,
/// `m * (reach - sqrt(n)) / (2 * sqrt(n))`, rounded up to whole steps.
/// `lemma_push_steps_unique` shows of a given number that it is this one.
pub open spec fn push_steps(m: int, reach: int, n: int) -> int {
    choose|k: int| is_push_steps(m, reach, n, k)
}

/// One component of the push that separates two colliding bodies, from the
/// same component `delta` of the offset of their centres: `push_steps` of
/// its magnitude, in its direction.
pub open spec fn push(delta: int, reach: int, n: int) -> int {
    if delta >= 0 {
        push_steps(delta, reach, n)
    } else {
        -push_steps(-delta, reach, n)
    }
}

/// The raw value of the mass of `of` divided by the mass of `to`, rounded
/// down and saturated.
pub open spec fn mass_ratio(of: Body, to: Body) -> int {
    saturate((of.mass() * ONE) / to.mass())
}

/// Two bodies after their collision is resolved.
///
/// Bodies that do not collide are unchanged. Colliding bodies are pushed
/// apart along the line through their centres, each by half the overlap,
/// and swap their velocities, each scaled by the mass of the other body
/// over its own.
pub open spec fn resolve(a: Body, b: Body) -> (Body, Body) {
    if colliding(a, b) {
        let px = push(a.position.x - b.position.x, reach(a, b), separation_squared(a, b));
        let py = push(a.position.y - b.position.y, reach(a, b), separation_squared(a, b));
        (
            Body {
                position: Point {
                    x: saturate(a.position.x + px),
                    y: saturate(a.position.y + py),
                },
                velocity: b.velocity.scaled(mass_ratio(b, a)),
                ..a
            },
            Body {
                position: Point {
                    x: saturate(b.position.x - px),
                    y: saturate(b.position.y - py),
                },
                velocity: a.velocity.scaled(mass_ratio(a, b)),
                ..b
            },
        )
    } else {
        (a, b)
    }
}

/// Whether every coordinate of two colliding bodies, once they are pushed
/// apart, is one that a scalar can hold.
pub open spec fn push_fits(a: Body, b: Body) -> bool {
    let px = push(a.position.x - b.position.x, reach(a, b), separation_squared(a, b));
    let py = push(a.position.y - b.position.y, reach(a, b), separation_squared(a, b));
    &&& saturate(a.position.x + px) == a.position.x + px
    &&& saturate(a.position.y + py) == a.position.y + py
    &&& saturate(b.position.x - px) == b.position.x - px
    &&& saturate(b.position.y - py) == b.position.y - py
}

/// The square of the distance between where a body was and where it is.
pub open spec fn moved_squared(before: Body, after: Body) -> int {
    let dx = after.position.x - before.position.x;
    let dy = after.position.y - before.position.y;
    dx * dx + dy * dy
}

/// Two bodies overlap exactly when the square of the distance between their
/// centres is less than the square of the sum of their radii: rounding the
/// distance down does not change the test.
pub proof fn lemma_overlap_is_exact(a: Body, b: Body)
    requires
        a.wf(),
        b.wf(),
    ensures
        overlap(a, b) > 0 <==> separation_squared(a, b) < reach(a, b) * reach(a, b),
{
    let n = separation_squared(a, b);
    let r = reach(a, b);
    let dx = a.position.x - b.position.x;
    let dy = a.position.y - b.position.y;
    assert(0 <= dx * dx + dy * dy) by (nonlinear_arith);
    if n < r * r {
        lemma_floor_sqrt_upper(n, r);
    } else {
        lemma_floor_sqrt_lower(n, r);
    }
}

/// Two bodies whose centres coincide are left as they are: there is no
/// direction to push them along.
pub proof fn lemma_coincident_bodies_unchanged(a: Body, b: Body)
    requires
        a.position == b.position,
    ensures
        resolve(a, b) == (a, b),
{
    assert(is_floor_sqrt(0, 0));
    lemma_floor_sqrt_unique(0, 0);
}

/// Bodies that do not overlap are left as they are.
pub proof fn lemma_apart_bodies_unchanged(a: Body, b: Body)
    requires
        overlap(a, b) <= 0,
    ensures
        resolve(a, b) == (a, b),
{
}

/// Resolving a collision changes neither the radius, and so the mass, nor
/// the orientation of a body.
pub proof fn lemma_resolve_keeps_shape(a: Body, b: Body)
    ensures
        resolve(a, b).0.radius == a.radius,
        resolve(a, b).1.radius == b.radius,
        resolve(a, b).0.pose == a.pose,
        resolve(a, b).1.pose == b.pose,
{
}

/// Colliding bodies swap their velocities, each scaled by the mass of the
/// other body over its own.
pub proof fn lemma_resolve_exchanges_motion(a: Body, b: Body)
    requires
        colliding(a, b),
    ensures
        resolve(a, b).0.velocity == b.velocity.scaled(mass_ratio(b, a)),
        resolve(a, b).1.velocity == a.velocity.scaled(mass_ratio(a, b)),
{
}

/// Two bodies collide exactly when the square of the distance between
/// their centres is positive and less than the square of the sum of their
/// radii.
pub proof fn lemma_colliding_is_exact(a: Body, b: Body)
    requires
        a.wf(),
        b.wf(),
    ensures
        colliding(a, b) <==> 0 < separation_squared(a, b) < reach(a, b) * reach(a, b),
{
    lemma_overlap_is_exact(a, b);
    let n = separation_squared(a, b);
    let dx = a.position.x - b.position.x;
    let dy = a.position.y - b.position.y;
    assert(0 <= dx * dx + dy * dy) by (nonlinear_arith);
    if n > 0 {
        lemma_floor_sqrt_lower(n, 1);
    } else {
        assert(is_floor_sqrt(0, 0));
        lemma_floor_sqrt_unique(0, 0);
    }
}

/// More steps stretch an offset further.
pub proof fn lemma_stretched_monotonic(m: int, k1: int, k2: int, reach: int, n: int)
    requires
        0 <= m,
        0 <= k1 <= k2,
        0 <= n,
        stretched(m, k1, reach, n),
    ensures
        stretched(m, k2, reach, n),
{
    let e1 = m + 2 * k1;
    let e2 = m + 2 * k2;
    lemma_product_order(e1, e1, e2, e2);
    assert(0 <= e1 * e1) by (nonlinear_arith);
    lemma_product_order(e1 * e1, n, e2 * e2, n);
}

/// Only one number of steps is the least.
pub proof fn lemma_push_steps_unique(m: int, reach: int, n: int, k: int)
    requires
        0 <= m,
        0 <= n,
        is_push_steps(m, reach, n, k),
    ensures
        push_steps(m, reach, n) == k,
{
    let j = push_steps(m, reach, n);
    assert(is_push_steps(m, reach, n, j));
    if j < k {
        lemma_stretched_monotonic(m, j, k - 1, reach, n);
    } else if k < j {
        lemma_stretched_monotonic(m, k, j - 1, reach, n);
    }
}

/// Below a number of steps that stretch an offset enough there is a least
/// one.
proof fn lemma_least_steps(m: int, reach: int, n: int, k: int) -> (j: int)
    requires
        0 <= k,
        stretched(m, k, reach, n),
    ensures
        is_push_steps(m, reach, n, j),
    decreases k,
{
    if k > 0 && stretched(m, k - 1, reach, n) {
        lemma_least_steps(m, reach, n, k - 1)
    } else {
        k
    }
}

/// There is a least number of steps, and `push_steps` is that number: with
/// it the offset has grown enough, and with one step less it has not.
pub proof fn lemma_push_steps_is_least(m: int, reach: int, n: int)
    requires
        0 <= m,
        0 <= reach,
        0 < n,
    ensures
        is_push_steps(m, reach, n, push_steps(m, reach, n)),
{
    let big = m * reach;
    assert(0 <= big) by (nonlinear_arith)
        requires
            big == m * reach,
            0 <= m,
            0 <= reach,
    ;
    lemma_product_order(big, big, m + 2 * big, m + 2 * big);
    assert(0 <= big * big) by (nonlinear_arith);
    lemma_product_order(big * big, 1, (m + 2 * big) * (m + 2 * big), n);
    assert(stretched(m, big, reach, n));
    let j = lemma_least_steps(m, reach, n, big);
    assert(is_push_steps(m, reach, n, j));
}

/// An offset that has not to grow takes no step, and only such an offset:
/// where the bodies overlap, that is an offset of nothing.
proof fn lemma_no_steps_no_offset(m: int, reach: int, n: int)
    requires
        0 <= m,
        0 <= reach,
        0 < n < reach * reach,
        push_steps(m, reach, n) == 0,
    ensures
        m == 0,
{
    lemma_push_steps_is_least(m, reach, n);
    if m > 0 {
        assert((m * reach) * (m * reach) == (m * m) * (reach * reach)) by (nonlinear_arith);
        assert((m * m) * n < (m * m) * (reach * reach)) by (nonlinear_arith)
            requires
                0 < m,
                n < reach * reach,
        ;
        assert(false);
    }
}

/// What the push does to one component of the offset of two overlapping
/// bodies.
///
/// With `k` the steps that each body moves and `c` two steps less than
/// twice that number, or nothing: the offset grows to at least its share of
/// `reach`, and to less than two steps more.
proof fn lemma_push_bounds(m: int, reach: int, n: int) -> (c: int)
    requires
        0 <= m,
        0 <= reach,
        0 < n < reach * reach,
    ensures
        0 <= c,
        0 <= push_steps(m, reach, n),
        2 * push_steps(m, reach, n) <= c + 2,
        (m + 2 * push_steps(m, reach, n)) * (m + 2 * push_steps(m, reach, n)) * n >= (m * reach)
            * (m * reach),
        (m + c) * (m + c) * n <= (m * reach) * (m * reach),
{
    let k = push_steps(m, reach, n);
    lemma_push_steps_is_least(m, reach, n);
    if k > 0 {
        assert(m + 2 * (k - 1) == m + (2 * k - 2));
        2 * k - 2
    } else {
        lemma_no_steps_no_offset(m, reach, n);
        assert((m + 0) * (m + 0) * n == 0) by (nonlinear_arith)
            requires
                m == 0,
        ;
        assert(0 <= (m * reach) * (m * reach)) by (nonlinear_arith);
        0
    }
}

/// Colliding bodies move by the same steps in opposite directions: the
/// point halfway between their centres stays where it is. This holds where
/// no coordinate is pushed past what a scalar can hold.
pub proof fn lemma_resolve_is_symmetric(a: Body, b: Body)
    requires
        push_fits(a, b),
    ensures
        resolve(a, b).0.position.x + resolve(a, b).1.position.x == a.position.x + b.position.x,
        resolve(a, b).0.position.y + resolve(a, b).1.position.y == a.position.y + b.position.y,
        moved_squared(a, resolve(a, b).0) == moved_squared(b, resolve(a, b).1),
{
    if colliding(a, b) {
        let px = push(a.position.x - b.position.x, reach(a, b), separation_squared(a, b));
        let py = push(a.position.y - b.position.y, reach(a, b), separation_squared(a, b));
        assert((-px) * (-px) == px * px && (-py) * (-py) == py * py) by (nonlinear_arith);
    }
}

/// Once a collision is resolved the two bodies touch: the distance between
/// their centres is the sum of their radii, but for the rounding to whole
/// steps.
///
/// The centres end at least the sum of the radii apart, and less than three
/// steps further apart than that, however deep the bodies reached into each
/// other. This holds where no coordinate is pushed past what a scalar can
/// hold.
pub proof fn lemma_resolve_separates(a: Body, b: Body)
    requires
        a.wf(),
        b.wf(),
        colliding(a, b),
        push_fits(a, b),
    ensures
        reach(resolve(a, b).0, resolve(a, b).1) == reach(a, b),
        reach(a, b) * reach(a, b) <= separation_squared(resolve(a, b).0, resolve(a, b).1) <= (
        reach(a, b) + 3) * (reach(a, b) + 3),
        overlap(resolve(a, b).0, resolve(a, b).1) <= 0,
{
    lemma_colliding_is_exact(a, b);
    let dx = a.position.x - b.position.x;
    let dy = a.position.y - b.position.y;
    let mx = magnitude(dx);
    let my = magnitude(dy);
    let n = separation_squared(a, b);
    let r = reach(a, b);
    let c = resolve(a, b).0;
    let d = resolve(a, b).1;
    let n2 = separation_squared(c, d);
    let kx = push_steps(mx, r, n);
    let ky = push_steps(my, r, n);
    let cx = lemma_push_bounds(mx, r, n);
    let cy = lemma_push_bounds(my, r, n);
    let ex = mx + 2 * kx;
    let ey = my + 2 * ky;
    assert(magnitude(c.position.x - d.position.x) == ex);
    assert(magnitude(c.position.y - d.position.y) == ey);
    lemma_magnitude_square(dx);
    lemma_magnitude_square(dy);
    lemma_magnitude_square(c.position.x - d.position.x);
    lemma_magnitude_square(c.position.y - d.position.y);
    assert(n2 == ex * ex + ey * ey);
    assert(n == mx * mx + my * my);
    let rr = r * r;
    assert((mx * r) * (mx * r) + (my * r) * (my * r) == rr * n) by (nonlinear_arith)
        requires
            n == mx * mx + my * my,
            rr == r * r,
    ;
    // The centres end at least the sum of the radii apart.
    assert(n2 * n == ex * ex * n + ey * ey * n) by (nonlinear_arith)
        requires
            n2 == ex * ex + ey * ey,
    ;
    lemma_cancel_factor(rr, n2, n);
    lemma_floor_sqrt_lower(n2, r);
    // They end less than three steps further apart than that.
    let ux = mx + cx;
    let uy = my + cy;
    assert((ux * ux + uy * uy) * n == ux * ux * n + uy * uy * n) by (nonlinear_arith);
    lemma_cancel_factor(ux * ux + uy * uy, rr, n);
    lemma_shifted_squares(ux, uy, r);
    lemma_sum_of_squares_monotonic(ux + 2, uy + 2, ex, ey);
}

/// Each of two colliding bodies moves by half the overlap, but for the
/// rounding to whole steps.
///
/// With the overlap taken from the distance rounded down, twice the length
/// of the move is at least the overlap less one step and at most the
/// overlap and three steps, however deep the bodies reached into each
/// other. This holds where no coordinate is pushed past what a scalar can
/// hold.
pub proof fn lemma_resolve_moves_half_the_overlap(a: Body, b: Body)
    requires
        a.wf(),
        b.wf(),
        colliding(a, b),
        push_fits(a, b),
    ensures
        (overlap(a, b) - 1) * (overlap(a, b) - 1) <= 4 * moved_squared(a, resolve(a, b).0) <= (
        overlap(a, b) + 3) * (overlap(a, b) + 3),
        moved_squared(b, resolve(a, b).1) == moved_squared(a, resolve(a, b).0),
{
    lemma_colliding_is_exact(a, b);
    lemma_resolve_is_symmetric(a, b);
    let dx = a.position.x - b.position.x;
    let dy = a.position.y - b.position.y;
    let mx = magnitude(dx);
    let my = magnitude(dy);
    let n = separation_squared(a, b);
    let r = reach(a, b);
    let s = distance(a, b);
    let o = overlap(a, b);
    let kx = push_steps(mx, r, n);
    let ky = push_steps(my, r, n);
    let cx = lemma_push_bounds(mx, r, n);
    let cy = lemma_push_bounds(my, r, n);
    lemma_floor_sqrt_exists(n);
    lemma_magnitude_square(dx);
    lemma_magnitude_square(dy);
    assert(n == mx * mx + my * my);
    let moved = moved_squared(a, resolve(a, b).0);
    assert(moved == kx * kx + ky * ky) by {
        lemma_magnitude_square(push(dx, r, n));
        lemma_magnitude_square(push(dy, r, n));
        assert(magnitude(push(dx, r, n)) == kx);
        assert(magnitude(push(dy, r, n)) == ky);
    }
    let tx = 2 * kx;
    let ty = 2 * ky;
    assert(tx * tx + ty * ty == 4 * moved) by (nonlinear_arith)
        requires
            tx == 2 * kx,
            ty == 2 * ky,
            moved == kx * kx + ky * ky,
    ;
    // Twice the move is at least the overlap less one step.
    let lo = o - 1;
    lemma_split_lower(mx, tx, n, s + 1, lo, r);
    lemma_split_lower(my, ty, n, s + 1, lo, r);
    assert((mx * lo) * (mx * lo) + (my * lo) * (my * lo) == (lo * lo) * n) by (nonlinear_arith)
        requires
            n == mx * mx + my * my,
    ;
    assert((tx * tx + ty * ty) * n == tx * tx * n + ty * ty * n) by (nonlinear_arith);
    lemma_cancel_factor(lo * lo, tx * tx + ty * ty, n);
    // Twice the move is at most the overlap and three steps.
    lemma_split_upper(mx, cx, n, s, o, r);
    lemma_split_upper(my, cy, n, s, o, r);
    assert((mx * o) * (mx * o) + (my * o) * (my * o) == (o * o) * n) by (nonlinear_arith)
        requires
            n == mx * mx + my * my,
    ;
    assert((cx * cx + cy * cy) * n == cx * cx * n + cy * cy * n) by (nonlinear_arith);
    lemma_cancel_factor(cx * cx + cy * cy, o * o, n);
    lemma_shifted_squares(cx, cy, o);
    lemma_sum_of_squares_monotonic(cx + 2, cy + 2, tx, ty);
}

/// The magnitude of a difference of two scalars.
fn abs_u128(x: i128) -> (m: u128)
    requires
        -0x1_0000_0000_0000_0000 < x < 0x1_0000_0000_0000_0000,
    ensures
        m == magnitude(x as int),
{
    if x >= 0 {
        x as u128
    } else {
        (-x) as u128
    }
}

/// One component of the push, from the matching component of the offset of
/// the centres.
fn push_component(delta: i128, reach: u128, n: u128) -> (p: i64)
    requires
        0 < n < reach * reach,
        delta * delta <= n,
        reach <= 2 * MAX_RADIUS,
    ensures
        p == push(delta as int, reach as int, n as int),
{
    proof {
        lemma_magnitude_square(delta as int);
        assert(reach * reach <= 4_000_000_000 * 4_000_000_000) by (nonlinear_arith)
            requires
                reach <= 4_000_000_000,
        ;
        if magnitude(delta as int) >= 0x1_0000_0000_0000_0000 {
            lemma_product_order(
                0x1_0000_0000_0000_0000,
                0x1_0000_0000_0000_0000,
                magnitude(delta as int),
                magnitude(delta as int),
            );
        }
    }
    let m: u128 = abs_u128(delta);
    proof {
        if m >= reach {
            lemma_product_order(reach as int, reach as int, m as int, m as int);
        }
        lemma_product_order(m as int, reach as int, 4_000_000_000, 4_000_000_000);
    }
    let x: u128 = m * reach;
    proof {
        lemma_product_order(x as int, x as int, 16_000_000_000_000_000_000, 16_000_000_000_000_000_000);
    }
    let target: u128 = x * x;
    let f: u128 = target / n;
    let t0: u128 = isqrt(f) as u128;
    proof {
        lemma_fundamental_div_mod(target as int, n as int);
        lemma_mod_bound(target as int, n as int);
        assert(0 <= t0 * t0) by (nonlinear_arith);
        lemma_product_order((t0 * t0) as int, n as int, f as int, n as int);
        assert(f * n == n * f) by (nonlinear_arith);
    }
    let exact: bool = t0 * t0 * n == target;
    let t: u128 = if exact {
        t0
    } else {
        t0 + 1
    };
    proof {
        // `t` is the least offset whose square times `n` reaches the target.
        assert(t * t * n >= target) by {
            if !exact {
                assert((t0 + 1) * (t0 + 1) >= f + 1);
                assert((t0 + 1) * (t0 + 1) * n >= (f + 1) * n) by (nonlinear_arith)
                    requires
                        (t0 + 1) * (t0 + 1) >= f + 1,
                        0 < n,
                ;
                assert((f + 1) * n == n * f + n) by (nonlinear_arith);
            }
        }
        assert(t > 0 ==> (t - 1) * (t - 1) * n < target) by {
            if exact && t > 0 {
                assert((t - 1) * (t - 1) * n < t * t * n) by (nonlinear_arith)
                    requires
                        0 < t,
                        0 < n,
                ;
            }
        }
        // It is at least the offset there is.
        assert(target == (m * m) * (reach * reach)) by (nonlinear_arith)
            requires
                target == x * x,
                x == m * reach,
        ;
        assert((m * m) * n <= (m * m) * (reach * reach)) by (nonlinear_arith)
            requires
                n < reach * reach,
        ;
        assert(m * m * n == (m * m) * n) by (nonlinear_arith);
        lemma_cancel_factor((m * m) as int, (t * t) as int, n as int);
        lemma_root_order(m as int, t as int);
        // And at most one more than the sum of the radii.
        assert((m * m) * (reach * reach) <= n * (reach * reach)) by (nonlinear_arith)
            requires
                m * m <= n,
        ;
        assert(f * n <= (reach * reach) * n) by (nonlinear_arith)
            requires
                f * n <= target,
                target <= n * (reach * reach),
        ;
        lemma_cancel_factor(f as int, (reach * reach) as int, n as int);
        lemma_root_order(t0 as int, reach as int);
    }
    let k: u128 = (t - m + 1) / 2;
    proof {
        let e = m + 2 * k;
        assert(t <= e <= t + 1);
        lemma_product_order(t as int, t as int, e as int, e as int);
        assert(0 <= t * t) by (nonlinear_arith);
        lemma_product_order((t * t) as int, n as int, (e * e) as int, n as int);
        assert(stretched(m as int, k as int, reach as int, n as int));
        if k > 0 {
            let below = m + 2 * (k - 1);
            assert(0 <= below <= t - 1);
            lemma_product_order(below as int, below as int, t - 1, t - 1);
            assert(0 <= below * below) by (nonlinear_arith);
            lemma_product_order((below * below) as int, n as int, (t - 1) * (t - 1), n as int);
            assert(!stretched(m as int, k as int - 1, reach as int, n as int));
        }
        lemma_push_steps_unique(m as int, reach as int, n as int, k as int);
    }
    if delta >= 0 {
        k as i64
    } else {
        -(k as i64)
    }
}

/// The mass of a body of radius `of` divided by the mass of one of radius
/// `to`.
fn mass_ratio_of(of: Fixed, to: Fixed) -> (r: Fixed)
    requires
        0 < of@ <= MAX_RADIUS,
        0 < to@ <= MAX_RADIUS,
    ensures
        r@ == saturate((of@ * of@ * ONE) / (to@ * to@)),
{
    let n: u128 = of.raw as u128;
    let d: u128 = to.raw as u128;
    assert(n * n <= 2_000_000_000 * 2_000_000_000 && 0 < d * d <= 2_000_000_000 * 2_000_000_000)
        by (nonlinear_arith)
        requires
            0 < n <= 2_000_000_000,
            0 < d <= 2_000_000_000,
    ;
    let q: u128 = (n * n * (ONE as u128)) / (d * d);
    if q > i64::MAX as u128 {
        Fixed { raw: i64::MAX }
    } else {
        Fixed { raw: q as i64 }
    }
}

/// Resolves the collision of two bodies, if they collide.
pub fn resolve_pair(a: &AsteroidBundle, b: &AsteroidBundle) -> (r: (
    AsteroidBundle,
    AsteroidBundle,
))
    ensures
        (r.0@, r.1@) == resolve(a@, b@),
{
    let pa = a.position();
    let pb = b.position();
    let ra = a.radius();
    let rb = b.radius();
    let dx: i128 = pa.x.raw as i128 - pb.x.raw as i128;
    let dy: i128 = pa.y.raw as i128 - pb.y.raw as i128;
    let mx: u128 = abs_u128(dx);
    let my: u128 = abs_u128(dy);
    let reach: u128 = (ra.raw + rb.raw) as u128;
    proof {
        lemma_colliding_is_exact(a@, b@);
        lemma_magnitude_square(dx as int);
        lemma_magnitude_square(dy as int);
        assert(0 <= mx * mx && 0 <= my * my) by (nonlinear_arith);
        if mx >= reach {
            lemma_product_order(reach as int, reach as int, mx as int, mx as int);
        }
        if my >= reach {
            lemma_product_order(reach as int, reach as int, my as int, my as int);
        }
    }
    if mx >= reach || my >= reach {
        return (*a, *b);
    }
    proof {
        lemma_product_order(mx as int, mx as int, 4_000_000_000, 4_000_000_000);
        lemma_product_order(my as int, my as int, 4_000_000_000, 4_000_000_000);
        lemma_product_order(reach as int, reach as int, 4_000_000_000, 4_000_000_000);
    }
    let n: u128 = mx * mx + my * my;
    if n == 0 || n >= reach * reach {
        return (*a, *b);
    }
    let px: i64 = push_component(dx, reach, n);
    let py: i64 = push_component(dy, reach, n);
    let to_a = mass_ratio_of(rb, ra);
    let to_b = mass_ratio_of(ra, rb);
    let position_a = Vec2::new(
        Fixed::from_raw(saturate_i128(pa.x.raw as i128 + px as i128)),
        Fixed::from_raw(saturate_i128(pa.y.raw as i128 + py as i128)),
    );
    let position_b = Vec2::new(
        Fixed::from_raw(saturate_i128(pb.x.raw as i128 - px as i128)),
        Fixed::from_raw(saturate_i128(pb.y.raw as i128 - py as i128)),
    );
    let velocity_a = Velocity(b.velocity().0.scale(to_a));
    let velocity_b = Velocity(a.velocity().0.scale(to_b));
    (a.with_motion(position_a, velocity_a), b.with_motion(position_b, velocity_b))
}

} // verus!
