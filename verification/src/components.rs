//! The data of the simulation: bodies and what they are made of.

use vstd::prelude::*;
use crate::fixed::{Fixed, ONE};
use crate::random::draw_inclusive;
use crate::vector::{Point, Vec2};

verus! {

/// The largest radius a body can have: two units, the width of the arena.
/// With it the squares of distances, scaled by squares of radii, are
/// numbers that the machine can hold.
pub const MAX_RADIUS: i64 = 2_000_000_000;

/// The smallest radius a body starts with: a fiftieth of a unit.
pub const MIN_SPAWN_RADIUS: i64 = 20_000_000;

/// The largest radius a body starts with: a twentieth of a unit.
pub const MAX_SPAWN_RADIUS: i64 = 50_000_000;

/// The largest speed along one axis a body starts with: half a unit per
/// second.
pub const MAX_SPAWN_SPEED: i64 = 500_000_000;

/// The model of an orientation.
pub struct Pose {
    pub u: int,
    pub v: int,
    pub w: int,
    pub turns: int,
}

/// The model of a body: a disc that moves in the plane.
pub struct Body {
    pub position: Point,
    pub radius: int,
    pub pose: Pose,
    pub velocity: Point,
}

impl Body {
    /// A body has a positive radius, of at most `MAX_RADIUS`.
    pub open spec fn wf(self) -> bool {
        0 < self.radius <= MAX_RADIUS
    }

    /// Whether the body is one that the simulation can start with: inside
    /// the square from minus one to one, turned by some rotation and not
    /// further, small and slow.
    pub open spec fn spawned(self) -> bool {
        &&& -ONE <= self.position.x <= ONE
        &&& -ONE <= self.position.y <= ONE
        &&& 0 <= self.pose.u <= ONE
        &&& 0 <= self.pose.v <= ONE
        &&& 0 <= self.pose.w <= ONE
        &&& self.pose.turns == 0
        &&& MIN_SPAWN_RADIUS <= self.radius <= MAX_SPAWN_RADIUS
        &&& -MAX_SPAWN_SPEED <= self.velocity.x <= MAX_SPAWN_SPEED
        &&& -MAX_SPAWN_SPEED <= self.velocity.y <= MAX_SPAWN_SPEED
    }

    /// Whether every number of the body is one that the machine holds: the
    /// coordinates of its position, of its velocity and of its orientation
    /// and its radius are scalars, and its turns are a count.
    pub open spec fn in_range(self) -> bool {
        &&& i64::MIN <= self.position.x <= i64::MAX
        &&& i64::MIN <= self.position.y <= i64::MAX
        &&& i64::MIN <= self.velocity.x <= i64::MAX
        &&& i64::MIN <= self.velocity.y <= i64::MAX
        &&& i64::MIN <= self.radius <= i64::MAX
        &&& i64::MIN <= self.pose.u <= i64::MAX
        &&& i64::MIN <= self.pose.v <= i64::MAX
        &&& i64::MIN <= self.pose.w <= i64::MAX
        &&& 0 <= self.pose.turns <= u64::MAX
    }

    /// The mass of the body: the square of its radius.
    pub open spec fn mass(self) -> int {
        self.radius * self.radius
    }
}

/// The frame rate as last measured, in frames per second: the latest
/// value, its simple moving average and its exponential moving average.
/// A figure is missing until it has been measured.
#[derive(Clone, Copy, Debug, PartialEq, Eq)]
pub struct Stats {
    pub raw: Option<Fixed>,
    pub sma: Option<Fixed>,
    pub ema: Option<Fixed>,
}

impl Default for Stats {
    /// No figure has been measured.
    fn default() -> (r: Stats)
        ensures
            r == (Stats { raw: None, sma: None, ema: None }),
    {
        Stats { raw: None, sma: None, ema: None }
    }
}

/// How fast a body moves, in units per second along each axis.
#[derive(Clone, Copy, Debug, PartialEq, Eq, Structural)]
pub struct Velocity(pub Vec2);

impl View for Velocity {
    type V = Point;

    open spec fn view(&self) -> Point {
        self.0@
    }
}

/// How a body is turned. It does not affect how the body moves.
///
/// The orientation is the rotation picked by the three numbers `u`, `v` and
/// `w`, each between zero and one, followed by `turns` steps of a fixed
/// rotation: a sixtieth of a radian about the vertical axis. The three
/// numbers pick the rotation of the unit quaternion with the parts
/// `sqrt(1 - u) * sin(t * v)`, `sqrt(1 - u) * cos(t * v)`,
/// `sqrt(u) * sin(t * w)` and `sqrt(u) * cos(t * w)`, where `t` is a full
/// turn. Numbers drawn evenly pick every rotation as often as any other.
#[derive(Clone, Copy, Debug, PartialEq, Eq, Structural)]
pub struct Orientation {
    pub u: Fixed,
    pub v: Fixed,
    pub w: Fixed,
    pub turns: u64,
}

impl View for Orientation {
    type V = Pose;

    open spec fn view(&self) -> Pose {
        Pose { u: self.u@, v: self.v@, w: self.w@, turns: self.turns as int }
    }
}

/// A body of the simulation.
#[derive(Clone, Copy, Debug, PartialEq, Eq)]
pub struct AsteroidBundle {
    translation: Vec2,
    scale: Fixed,
    rotation: Orientation,
    velocity: Velocity,
}

impl View for AsteroidBundle {
    type V = Body;

    closed spec fn view(&self) -> Body {
        Body {
            position: self.translation@,
            radius: self.scale@,
            pose: self.rotation@,
            velocity: self.velocity@,
        }
    }
}

impl AsteroidBundle {
    #[verifier::type_invariant]
    pub open spec fn inv(&self) -> bool {
        self@.wf()
    }

    /// The body with the given state, if `radius` is one a body can have.
    pub fn new(position: Vec2, radius: Fixed, orientation: Orientation, velocity: Velocity) -> (r:
        Option<AsteroidBundle>)
        ensures
            r is Some <==> 0 < radius@ <= MAX_RADIUS,
            r is Some ==> r->0@ == (Body {
                position: position@,
                radius: radius@,
                pose: orientation@,
                velocity: velocity@,
            }),
    {
        if 0 < radius.raw && radius.raw <= MAX_RADIUS {
            Some(
                AsteroidBundle {
                    translation: position,
                    scale: radius,
                    rotation: orientation,
                    velocity,
                },
            )
        } else {
            None
        }
    }

    /// The body that eight drawn numbers make, each the raw value of a
    /// scalar: no step of the rotation has been taken yet.
    pub fn from_draws(x: i64, y: i64, u: i64, v: i64, w: i64, radius: i64, vx: i64, vy: i64) -> (r:
        AsteroidBundle)
        requires
            0 < radius <= MAX_RADIUS,
        ensures
            r@ == (Body {
                position: Point { x: x as int, y: y as int },
                radius: radius as int,
                pose: Pose { u: u as int, v: v as int, w: w as int, turns: 0 },
                velocity: Point { x: vx as int, y: vy as int },
            }),
    {
        AsteroidBundle {
            translation: Vec2::new(Fixed::from_raw(x), Fixed::from_raw(y)),
            scale: Fixed::from_raw(radius),
            rotation: Orientation {
                u: Fixed::from_raw(u),
                v: Fixed::from_raw(v),
                w: Fixed::from_raw(w),
                turns: 0,
            },
            velocity: Velocity(Vec2::new(Fixed::from_raw(vx), Fixed::from_raw(vy))),
        }
    }

    /// A body to start the simulation with, made by `from_draws` of eight
    /// numbers drawn from `rng` in this order: the two coordinates of its
    /// position, the three numbers of its orientation, its radius and the
    /// two coordinates of its velocity.
    pub fn with_rng(rng: &mut rand::rngs::StdRng) -> (r: AsteroidBundle)
        ensures
            r@.spawned(),
    {
        let x = draw_inclusive(rng, -ONE, ONE);
        let y = draw_inclusive(rng, -ONE, ONE);
        let u = draw_inclusive(rng, 0, ONE);
        let v = draw_inclusive(rng, 0, ONE);
        let w = draw_inclusive(rng, 0, ONE);
        let radius = draw_inclusive(rng, MIN_SPAWN_RADIUS, MAX_SPAWN_RADIUS);
        let vx = draw_inclusive(rng, -MAX_SPAWN_SPEED, MAX_SPAWN_SPEED);
        let vy = draw_inclusive(rng, -MAX_SPAWN_SPEED, MAX_SPAWN_SPEED);
        AsteroidBundle::from_draws(x, y, u, v, w, radius, vx, vy)
    }

    /// Where the centre of the body is.
    pub fn position(&self) -> (r: Vec2)
        ensures
            r@ == self@.position,
    {
        self.translation
    }

    /// The radius of the body.
    pub fn radius(&self) -> (r: Fixed)
        ensures
            r@ == self@.radius,
            self@.wf(),
    {
        proof {
            use_type_invariant(self);
        }
        self.scale
    }

    /// How the body is turned.
    pub fn orientation(&self) -> (r: Orientation)
        ensures
            r@ == self@.pose,
    {
        self.rotation
    }

    /// How fast the body moves.
    pub fn velocity(&self) -> (r: Velocity)
        ensures
            r@ == self@.velocity,
    {
        self.velocity
    }

    /// The same body at another place, moving at another speed.
    pub fn with_motion(&self, position: Vec2, velocity: Velocity) -> (r: AsteroidBundle)
        ensures
            r@ == (Body { position: position@, velocity: velocity@, ..self@ }),
    {
        proof {
            use_type_invariant(self);
        }
        AsteroidBundle {
            translation: position,
            scale: self.scale,
            rotation: self.rotation,
            velocity,
        }
    }

    /// The same body, turned another way.
    pub fn with_orientation(&self, orientation: Orientation) -> (r: AsteroidBundle)
        ensures
            r@ == (Body { pose: orientation@, ..self@ }),
    {
        proof {
            use_type_invariant(self);
        }
        AsteroidBundle {
            translation: self.translation,
            scale: self.scale,
            rotation: orientation,
            velocity: self.velocity,
        }
    }
}

/// Every number of the model of a body is one that the machine holds.
pub proof fn lemma_view_in_range(body: AsteroidBundle)
    ensures
        body@.in_range(),
{
}

/// The models of the bodies of a store, in the order of the store.
pub open spec fn arena(store: Seq<AsteroidBundle>) -> Seq<Body> {
    Seq::new(store.len(), |i: int| store[i]@)
}

} // verus!
