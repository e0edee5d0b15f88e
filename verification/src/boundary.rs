//! How a body bounces off the walls of the arena.
//!
//! The arena is the square from minus one to one along each axis.

use vstd::prelude::*;
use crate::components::{AsteroidBundle, Body, Velocity};
use crate::fixed::{magnitude, saturate, Fixed, ONE};
use crate::vector::{Point, Vec2};

verus! {

/// Whether a body is small enough to lie inside the arena.
pub open spec fn fits_arena(body: Body) -> bool {
    body.radius <= ONE
}

/// Whether a disc of the given radius, centred at `x` along one axis,
/// reaches past a wall of that axis.
pub open spec fn crosses(x: int, radius: int) -> bool {
    magnitude(x) > ONE - radius
}

/// The value of `lo..=hi` nearest to `x`.
pub open spec fn clamped(x: int, lo: int, hi: int) -> int {
    if x < lo {
        lo
    } else if x > hi {
        hi
    } else {
        x
    }
}

/// Where a disc ends up along one axis: back inside if it reached past a
/// wall.
pub open spec fn bounced_position(x: int, radius: int) -> int {
    if crosses(x, radius) {
        clamped(x, -ONE + radius, ONE - radius)
    } else {
        x
    }
}

/// How fast a disc ends up moving along one axis: the other way if it
/// reached past a wall.
pub open spec fn bounced_velocity(x: int, v: int, radius: int) -> int {
    if crosses(x, radius) {
        saturate(-v)
    } else {
        v
    }
}

/// A body after it has bounced off the walls. The two axes are treated
/// alike and apart.
pub open spec fn bounced(body: Body) -> Body {
    Body {
        position: Point {
            x: bounced_position(body.position.x, body.radius),
            y: bounced_position(body.position.y, body.radius),
        },
        velocity: Point {
            x: bounced_velocity(body.position.x, body.velocity.x, body.radius),
            y: bounced_velocity(body.position.y, body.velocity.y, body.radius),
        },
        ..body
    }
}

/// After a bounce the body lies inside the arena: along each axis its
/// centre is at least its radius away from both walls.
pub proof fn lemma_bounce_contains(body: Body)
    requires
        body.wf(),
        fits_arena(body),
    ensures
        magnitude(bounced(body).position.x) <= ONE - body.radius,
        magnitude(bounced(body).position.y) <= ONE - body.radius,
        !crosses(bounced(body).position.x, bounced(body).radius),
        !crosses(bounced(body).position.y, bounced(body).radius),
{
}

/// A body that reaches past a wall is put back against that wall, and its
/// velocity along that axis is negated.
pub proof fn lemma_bounce_reflects(body: Body)
    requires
        body.wf(),
        fits_arena(body),
    ensures
        body.position.x > ONE - body.radius ==> bounced(body).position.x == ONE - body.radius,
        body.position.x < -(ONE - body.radius) ==> bounced(body).position.x == -(ONE
            - body.radius),
        body.position.y > ONE - body.radius ==> bounced(body).position.y == ONE - body.radius,
        body.position.y < -(ONE - body.radius) ==> bounced(body).position.y == -(ONE
            - body.radius),
        crosses(body.position.x, body.radius) && i64::MIN < body.velocity.x <= i64::MAX
            ==> bounced(body).velocity.x == -body.velocity.x,
        crosses(body.position.y, body.radius) && i64::MIN < body.velocity.y <= i64::MAX
            ==> bounced(body).velocity.y == -body.velocity.y,
{
}

/// A body that lies inside the arena is left as it is.
pub proof fn lemma_bounce_keeps_inside(body: Body)
    requires
        !crosses(body.position.x, body.radius),
        !crosses(body.position.y, body.radius),
    ensures
        bounced(body) == body,
{
}

/// One axis of a bounce.
fn bounce_axis(x: Fixed, v: Fixed, radius: Fixed) -> (r: (Fixed, Fixed))
    requires
        0 < radius@ <= ONE,
    ensures
        r.0@ == bounced_position(x@, radius@),
        r.1@ == bounced_velocity(x@, v@, radius@),
{
    let limit: i64 = ONE - radius.raw;
    if x.raw > limit {
        (Fixed::from_raw(limit), v.neg())
    } else if x.raw < -limit {
        (Fixed::from_raw(-limit), v.neg())
    } else {
        (x, v)
    }
}

/// Bounces a body off the walls of the arena.
pub fn bounce(body: &AsteroidBundle) -> (r: AsteroidBundle)
    requires
        fits_arena(body@),
    ensures
        r@ == bounced(body@),
{
    let radius = body.radius();
    let position = body.position();
    let velocity = body.velocity().0;
    let (x, vx) = bounce_axis(position.x, velocity.x, radius);
    let (y, vy) = bounce_axis(position.y, velocity.y, radius);
    body.with_motion(Vec2::new(x, y), Velocity(Vec2::new(vx, vy)))
}

} // verus!
