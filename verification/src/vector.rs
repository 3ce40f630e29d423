//! Points and displacements of the plane.

use vstd::prelude::*;
use crate::arith::{clamp, saturate, LIMIT};

verus! {

/// A point or a displacement of the plane, in raw units: the mathematical
/// value of a [`Vec2`].
pub struct Vector {
    pub x: int,
    pub y: int,
}

impl Vector {
    /// Both components lie within the stored range.
    pub open spec fn in_range(self) -> bool {
        -LIMIT <= self.x <= LIMIT && -LIMIT <= self.y <= LIMIT
    }

    /// The vector without length.
    pub open spec fn zero() -> Vector {
        Vector { x: 0, y: 0 }
    }

    /// Sum by components.
    pub open spec fn plus(self, other: Vector) -> Vector {
        Vector { x: self.x + other.x, y: self.y + other.y }
    }

    /// The vector of the same length that points the other way.
    pub open spec fn opposite(self) -> Vector {
        Vector { x: -self.x, y: -self.y }
    }

    /// Each component brought into the stored range.
    pub open spec fn clamped(self) -> Vector {
        Vector { x: clamp(self.x, LIMIT as int), y: clamp(self.y, LIMIT as int) }
    }
}

/// A point or a displacement whose components are always within `LIMIT` of
/// zero.
#[derive(Clone, Copy, Debug, PartialEq, Eq)]
pub struct Vec2 {
    x: i64,
    y: i64,
}

impl View for Vec2 {
    type V = Vector;

    closed spec fn view(&self) -> Vector {
        Vector { x: self.x as int, y: self.y as int }
    }
}

impl Vec2 {
    /// What holds of every vector at all times.
    #[verifier::type_invariant]
    pub open spec fn inv(self) -> bool {
        self@.in_range()
    }

    /// A vector with the given components, if both are in range.
    pub fn new(x: i64, y: i64) -> (r: Option<Vec2>)
        ensures
            match r {
                Some(v) => v@ == (Vector { x: x as int, y: y as int }) && v@.in_range(),
                None => !(Vector { x: x as int, y: y as int }).in_range(),
            },
    {
        if -LIMIT <= x && x <= LIMIT && -LIMIT <= y && y <= LIMIT {
            Some(Vec2 { x, y })
        } else {
            None
        }
    }

    /// The vector whose components are those given, each saturated.
    pub fn clamped(x: i128, y: i128) -> (r: Vec2)
        ensures
            r@ == (Vector { x: x as int, y: y as int }).clamped(),
    {
        Vec2 { x: saturate(x), y: saturate(y) }
    }

    /// The vector without length.
    pub fn zero() -> (r: Vec2)
        ensures
            r@ == Vector::zero(),
    {
        Vec2 { x: 0, y: 0 }
    }

    /// The horizontal component.
    pub fn x(&self) -> (r: i64)
        ensures
            r == self@.x,
            -LIMIT <= r <= LIMIT,
    {
        proof {
            use_type_invariant(self);
        }
        self.x
    }

    /// The vertical component.
    pub fn y(&self) -> (r: i64)
        ensures
            r == self@.y,
            -LIMIT <= r <= LIMIT,
    {
        proof {
            use_type_invariant(self);
        }
        self.y
    }
}

} // verus!
