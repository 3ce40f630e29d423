//! A body: one moving mass with its recent positions.

use std::collections::VecDeque;
use vstd::prelude::*;
use crate::arith::{quot, LIMIT, RADIUS_LIMIT};
use crate::vector::{Vec2, Vector};

verus! {

/// Trail capacity of a body that has not been given one.
pub const DEFAULT_TRAIL_LENGTH: usize = 30;

/// The mathematical value of a [`Body`].
pub struct BodyModel {
    pub pos: Vector,
    pub velocity: Vector,
    /// Acceleration gathered during the current tick.
    pub accel: Vector,
    pub mass: int,
    pub radius: int,
    /// Earlier positions, oldest first.
    pub trail: Seq<Vector>,
    /// Most positions the trail keeps.
    pub trail_length: nat,
}

/// Half of each component, rounded toward zero.
pub open spec fn half(v: Vector) -> Vector {
    Vector { x: quot(v.x, 2), y: quot(v.y, 2) }
}

/// The trail after `pos` was appended and the oldest entries were dropped
/// until at most `capacity` are left.
pub open spec fn recorded(trail: Seq<Vector>, pos: Vector, capacity: nat) -> Seq<Vector> {
    let all = trail.push(pos);
    if all.len() <= capacity {
        all
    } else {
        all.subrange(all.len() - capacity, all.len() as int)
    }
}

/// A mass that a body may have.
pub open spec fn valid_mass(mass: int) -> bool {
    0 < mass <= LIMIT
}

/// A radius that a body may have.
pub open spec fn valid_radius(radius: int) -> bool {
    0 < radius <= RADIUS_LIMIT
}

impl BodyModel {
    /// Mass and radius are positive, and every quantity is in range.
    pub open spec fn wf(self) -> bool {
        &&& self.pos.in_range()
        &&& self.velocity.in_range()
        &&& self.accel.in_range()
        &&& valid_mass(self.mass)
        &&& valid_radius(self.radius)
    }

    /// A body as it is constructed: at rest in its acceleration, with no
    /// history.
    pub open spec fn fresh(pos: Vector, mass: int, radius: int, velocity: Vector) -> BodyModel {
        BodyModel {
            pos,
            velocity,
            accel: Vector::zero(),
            mass,
            radius,
            trail: Seq::empty(),
            trail_length: DEFAULT_TRAIL_LENGTH as nat,
        }
    }

    /// The same body with another acceleration.
    pub open spec fn with_accel(self, accel: Vector) -> BodyModel {
        BodyModel { accel, ..self }
    }

    /// The same body with another trail capacity.
    pub open spec fn with_trail_length(self, trail_length: nat) -> BodyModel {
        BodyModel { trail_length, ..self }
    }

    /// The trail of `self` after its position was recorded with room for
    /// `capacity` entries.
    pub open spec fn with_recorded(self, capacity: nat) -> BodyModel {
        BodyModel { trail: recorded(self.trail, self.pos, capacity), ..self }
    }

    /// One Euler step of unit length: the velocity takes up the
    /// acceleration, then the position takes up the new velocity.
    pub open spec fn euler(self) -> BodyModel {
        let velocity = self.velocity.plus(self.accel).clamped();
        BodyModel {
            pos: self.pos.plus(velocity).clamped(),
            velocity,
            trail: recorded(self.trail, self.pos, self.trail_length),
            ..self
        }
    }

    /// One velocity-Verlet step of unit length: the position moves by the
    /// old velocity and half the acceleration, the velocity takes up the
    /// acceleration.
    pub open spec fn verlet(self) -> BodyModel {
        BodyModel {
            pos: self.pos.plus(self.velocity).plus(half(self.accel)).clamped(),
            velocity: self.velocity.plus(self.accel).clamped(),
            trail: recorded(self.trail, self.pos, self.trail_length),
            ..self
        }
    }
}

/// Why a body could not be constructed.
#[derive(Clone, Copy, Debug, PartialEq, Eq)]
pub enum BodyError {
    /// The mass is not positive, or exceeds `LIMIT`.
    MassOutOfRange,
    /// The radius is not positive, or exceeds `RADIUS_LIMIT`.
    RadiusOutOfRange,
}

/// One simulated mass. Its mass and radius are positive for as long as it
/// lives.
#[derive(Debug)]
pub struct Body {
    pos: Vec2,
    velocity: Vec2,
    current_accel: Vec2,
    mass: i64,
    radius: i64,
    trail: VecDeque<Vec2>,
    trail_length: usize,
}

/// The mathematical values of a stored trail.
pub open spec fn points(trail: Seq<Vec2>) -> Seq<Vector> {
    trail.map_values(|v: Vec2| v@)
}

/// The mathematical values of a collection of bodies.
pub open spec fn models(bodies: Seq<Body>) -> Seq<BodyModel> {
    bodies.map_values(|b: Body| b@)
}

impl View for Body {
    type V = BodyModel;

    closed spec fn view(&self) -> BodyModel {
        BodyModel {
            pos: self.pos@,
            velocity: self.velocity@,
            accel: self.current_accel@,
            mass: self.mass as int,
            radius: self.radius as int,
            trail: points(self.trail@),
            trail_length: self.trail_length as nat,
        }
    }
}

impl Clone for Body {
    fn clone(&self) -> (r: Self)
        ensures
            r@ == self@,
    {
        proof {
            use_type_invariant(self);
        }
        let trail = self.trail.clone();
        assert(trail@ =~= self.trail@);
        Body {
            pos: self.pos,
            velocity: self.velocity,
            current_accel: self.current_accel,
            mass: self.mass,
            radius: self.radius,
            trail,
            trail_length: self.trail_length,
        }
    }
}

impl Body {
    /// What holds of every body at all times.
    #[verifier::type_invariant]
    pub open spec fn inv(self) -> bool {
        self@.wf()
    }

    /// A body at `pos` moving with `velocity`, with no acceleration and an
    /// empty trail. A mass or a radius that is not positive, or is too large
    /// to store, is refused; the mass is looked at first.
    pub fn new(pos: Vec2, mass: i64, radius: i64, velocity: Vec2) -> (r: Result<Body, BodyError>)
        ensures
            match r {
                Ok(b) => valid_mass(mass as int) && valid_radius(radius as int) && b@
                    == BodyModel::fresh(pos@, mass as int, radius as int, velocity@),
                Err(BodyError::MassOutOfRange) => !valid_mass(mass as int),
                Err(BodyError::RadiusOutOfRange) => valid_mass(mass as int) && !valid_radius(
                    radius as int,
                ),
            },
    {
        if mass <= 0 || mass > LIMIT {
            return Err(BodyError::MassOutOfRange);
        }
        if radius <= 0 || radius > RADIUS_LIMIT {
            return Err(BodyError::RadiusOutOfRange);
        }
        Ok(Body::from_valid(pos, mass, radius, velocity))
    }

    /// A body of a mass and a radius already known to be valid.
    pub(crate) fn from_valid(pos: Vec2, mass: i64, radius: i64, velocity: Vec2) -> (r: Body)
        requires
            valid_mass(mass as int),
            valid_radius(radius as int),
        ensures
            r@ == BodyModel::fresh(pos@, mass as int, radius as int, velocity@),
    {
        proof {
            use_type_invariant(pos);
            use_type_invariant(velocity);
        }
        let trail: VecDeque<Vec2> = VecDeque::new();
        assert(points(trail@) =~= Seq::<Vector>::empty());
        Body {
            pos,
            velocity,
            current_accel: Vec2::zero(),
            mass,
            radius,
            trail,
            trail_length: DEFAULT_TRAIL_LENGTH,
        }
    }

    /// Where the centre is.
    pub fn pos(&self) -> (r: Vec2)
        ensures
            r@ == self@.pos,
    {
        self.pos
    }

    /// Displacement per tick.
    pub fn velocity(&self) -> (r: Vec2)
        ensures
            r@ == self@.velocity,
    {
        self.velocity
    }

    /// Acceleration gathered in the last tick.
    pub fn current_accel(&self) -> (r: Vec2)
        ensures
            r@ == self@.accel,
    {
        self.current_accel
    }

    /// The mass, which is positive.
    pub fn mass(&self) -> (r: i64)
        ensures
            r == self@.mass,
            valid_mass(r as int),
    {
        proof {
            use_type_invariant(self);
        }
        self.mass
    }

    /// The radius, which is positive.
    pub fn radius(&self) -> (r: i64)
        ensures
            r == self@.radius,
            valid_radius(r as int),
    {
        proof {
            use_type_invariant(self);
        }
        self.radius
    }

    /// How many positions the trail keeps.
    pub fn trail_length(&self) -> (r: usize)
        ensures
            r == self@.trail_length,
    {
        self.trail_length
    }

    /// The recorded positions, oldest first.
    pub fn trail(&self) -> (r: Vec<Vec2>)
        ensures
            points(r@) == self@.trail,
    {
        let mut out: Vec<Vec2> = Vec::new();
        let n: usize = self.trail.len();
        let mut i: usize = 0;
        while i < n
            invariant
                i <= n,
                n == self.trail@.len(),
                out@ == self.trail@.subrange(0, i as int),
            decreases n - i,
        {
            out.push(self.trail[i]);
            assert(out@ =~= self.trail@.subrange(0, i + 1));
            i += 1;
        }
        assert(out@ =~= self.trail@);
        out
    }

    /// Sets how many positions the trail keeps from the next recording on.
    pub fn set_trail_length(&mut self, trail_length: usize)
        ensures
            final(self)@ == old(self)@.with_trail_length(trail_length as nat),
    {
        proof {
            use_type_invariant(&*self);
        }
        self.trail_length = trail_length;
    }

    /// Replaces the acceleration gathered so far.
    pub fn set_current_accel(&mut self, accel: Vec2)
        ensures
            final(self)@ == old(self)@.with_accel(accel@),
    {
        proof {
            use_type_invariant(&*self);
            use_type_invariant(accel);
        }
        self.current_accel = accel;
    }

    /// Appends the current position to the trail, then drops the oldest
    /// entries until at most `capacity` are left.
    pub fn record_trail(&mut self, capacity: usize)
        ensures
            final(self)@ == old(self)@.with_recorded(capacity as nat),
    {
        proof {
            use_type_invariant(&*self);
        }
        let ghost all = self.trail@.push(self.pos);
        let mut trail: VecDeque<Vec2> = VecDeque::new();
        core::mem::swap(&mut self.trail, &mut trail);
        trail.push_back(self.pos);
        while trail.len() > capacity
            invariant
                trail@.len() <= all.len(),
                trail@.len() >= capacity || trail@.len() == all.len(),
                trail@ == all.subrange(all.len() - trail@.len(), all.len() as int),
            decreases trail@.len(),
        {
            let dropped = trail.pop_front();
            assert(trail@ =~= all.subrange(all.len() - trail@.len(), all.len() as int));
        }
        core::mem::swap(&mut self.trail, &mut trail);
        proof {
            let kept = recorded(old(self)@.trail, old(self)@.pos, capacity as nat);
            assert(points(all) =~= old(self)@.trail.push(old(self)@.pos));
            assert(points(self.trail@) =~= kept);
        }
    }

    /// Advances the body by one Euler step and records where it was.
    pub fn update_euler(&mut self)
        ensures
            final(self)@ == old(self)@.euler(),
    {
        proof {
            use_type_invariant(&*self);
        }
        let capacity: usize = self.trail_length;
        self.record_trail(capacity);
        let velocity = Vec2::clamped(
            self.velocity.x() as i128 + self.current_accel.x() as i128,
            self.velocity.y() as i128 + self.current_accel.y() as i128,
        );
        let pos = Vec2::clamped(
            self.pos.x() as i128 + velocity.x() as i128,
            self.pos.y() as i128 + velocity.y() as i128,
        );
        proof {
            use_type_invariant(&*self);
            use_type_invariant(velocity);
            use_type_invariant(pos);
        }
        self.velocity = velocity;
        self.pos = pos;
    }

    /// Advances the body by one velocity-Verlet step and records where it
    /// was.
    pub fn update_verlet(&mut self)
        ensures
            final(self)@ == old(self)@.verlet(),
    {
        proof {
            use_type_invariant(&*self);
        }
        let capacity: usize = self.trail_length;
        self.record_trail(capacity);
        let pos = Vec2::clamped(
            self.pos.x() as i128 + self.velocity.x() as i128 + self.current_accel.x() as i128 / 2,
            self.pos.y() as i128 + self.velocity.y() as i128 + self.current_accel.y() as i128 / 2,
        );
        let velocity = Vec2::clamped(
            self.velocity.x() as i128 + self.current_accel.x() as i128,
            self.velocity.y() as i128 + self.current_accel.y() as i128,
        );
        proof {
            use_type_invariant(&*self);
            use_type_invariant(velocity);
            use_type_invariant(pos);
        }
        self.pos = pos;
        self.velocity = velocity;
    }
}

} // verus!
