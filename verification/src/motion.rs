//! How a body moves and turns when nothing is in its way.

use vstd::prelude::*;
use crate::components::{AsteroidBundle, Body, Orientation, Pose};
use crate::fixed::{saturate, trunc_div, Fixed, ONE};

verus! {

/// A body after it has moved at its velocity for `dt` seconds, `dt` given
/// as the raw value of a scalar.
pub open spec fn advanced(body: Body, dt: int) -> Body {
    Body { position: body.position.plus(body.velocity.scaled(dt)), ..body }
}

/// The count of turns that follows `turns`. It starts again at zero after
/// the largest count.
pub open spec fn next_turn(turns: int) -> int {
    if turns == u64::MAX {
        0
    } else {
        turns + 1
    }
}

/// A body after one more step of the fixed rotation.
pub open spec fn turned(body: Body) -> Body {
    Body { pose: Pose { turns: next_turn(body.pose.turns), ..body.pose }, ..body }
}

/// A body that moves freely ends where it started plus its velocity times
/// the elapsed time, the product rounded toward zero. This holds where
/// neither the product nor the sum is more than a scalar can hold.
pub proof fn lemma_advance_is_linear(body: Body, dt: int)
    requires
        saturate(trunc_div(body.velocity.x * dt, ONE as int)) == trunc_div(
            body.velocity.x * dt,
            ONE as int,
        ),
        saturate(trunc_div(body.velocity.y * dt, ONE as int)) == trunc_div(
            body.velocity.y * dt,
            ONE as int,
        ),
        saturate(body.position.x + trunc_div(body.velocity.x * dt, ONE as int))
            == body.position.x + trunc_div(body.velocity.x * dt, ONE as int),
        saturate(body.position.y + trunc_div(body.velocity.y * dt, ONE as int))
            == body.position.y + trunc_div(body.velocity.y * dt, ONE as int),
    ensures
        advanced(body, dt).position.x == body.position.x + trunc_div(
            body.velocity.x * dt,
            ONE as int,
        ),
        advanced(body, dt).position.y == body.position.y + trunc_div(
            body.velocity.y * dt,
            ONE as int,
        ),
        advanced(body, dt).velocity == body.velocity,
        advanced(body, dt).radius == body.radius,
        advanced(body, dt).pose == body.pose,
{
}

/// A body whose position is a scalar does not move in no time.
pub proof fn lemma_advance_by_nothing(body: Body)
    requires
        saturate(body.position.x) == body.position.x,
        saturate(body.position.y) == body.position.y,
    ensures
        advanced(body, 0) == body,
{
    assert(body.velocity.x * 0 == 0 && body.velocity.y * 0 == 0) by (nonlinear_arith);
}

/// Moves a body at its velocity for `dt` seconds.
pub fn advance(body: &AsteroidBundle, dt: Fixed) -> (r: AsteroidBundle)
    ensures
        r@ == advanced(body@, dt@),
{
    let velocity = body.velocity();
    body.with_motion(body.position().add(velocity.0.scale(dt)), velocity)
}

/// Turns a body by one step of the fixed rotation.
pub fn turn(body: &AsteroidBundle) -> (r: AsteroidBundle)
    ensures
        r@ == turned(body@),
{
    let o = body.orientation();
    let turns: u64 = if o.turns == u64::MAX {
        0
    } else {
        o.turns + 1
    };
    body.with_orientation(Orientation { u: o.u, v: o.v, w: o.w, turns })
}

} // verus!
