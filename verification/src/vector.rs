//! Two-dimensional vectors of fixed-point scalars.

use vstd::prelude::*;
use crate::fixed::{saturate, scaled_product, Fixed};

verus! {

/// The model of a vector: its two components as raw scalar values.
pub struct Point {
    pub x: int,
    pub y: int,
}

impl Point {
    /// The component-wise sum, saturated.
    pub open spec fn plus(self, other: Point) -> Point {
        Point { x: saturate(self.x + other.x), y: saturate(self.y + other.y) }
    }

    /// Both components multiplied by the scalar with raw value `factor`.
    pub open spec fn scaled(self, factor: int) -> Point {
        Point { x: scaled_product(self.x, factor), y: scaled_product(self.y, factor) }
    }
}

/// A vector in the plane.
#[derive(Clone, Copy, Debug, PartialEq, Eq, Structural)]
pub struct Vec2 {
    pub x: Fixed,
    pub y: Fixed,
}

impl View for Vec2 {
    type V = Point;

    open spec fn view(&self) -> Point {
        Point { x: self.x@, y: self.y@ }
    }
}

impl Vec2 {
    /// The vector with the given components.
    pub fn new(x: Fixed, y: Fixed) -> (r: Vec2)
        ensures
            r@ == (Point { x: x@, y: y@ }),
    {
        Vec2 { x, y }
    }

    /// The component-wise sum, saturated.
    pub fn add(self, rhs: Vec2) -> (r: Vec2)
        ensures
            r@ == self@.plus(rhs@),
    {
        Vec2 { x: self.x.add(rhs.x), y: self.y.add(rhs.y) }
    }

    /// Both components multiplied by `factor`.
    pub fn scale(self, factor: Fixed) -> (r: Vec2)
        ensures
            r@ == self@.scaled(factor@),
    {
        Vec2 { x: self.x.mul(factor), y: self.y.mul(factor) }
    }
}

} // verus!
