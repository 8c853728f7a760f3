//! Per-object dynamic state: invertible mass, invertible moment of
//! inertia, and velocity.
//!
//! A body may be infinitely massive or rotationally fixed: such an axis
//! stores a zero inverse, never an infinity.  The impulse solver only
//! ever multiplies by the inverse, so a zero inverse makes the body
//! exactly immovable along that axis.

use vstd::prelude::*;

use crate::fx::{fx_div, Fx, SCALE};
use crate::vec2::{V2i, Vec2};

verus! {

/// Ghost mirror of a velocity.
pub ghost struct VelocityI {
    pub linear: V2i,
    pub angular: int,
}

/// Ghost mirror of a rigid body: the two inverses and the velocity.
pub ghost struct BodyI {
    pub inv_mass: int,
    pub inv_moi: int,
    pub vel: VelocityI,
}

/// Linear and angular velocity of a body.
#[derive(Clone, Copy, Debug, PartialEq, Eq, Structural)]
pub struct Velocity {
    pub linear: Vec2,
    pub angular: Fx,
}

impl View for Velocity {
    type V = VelocityI;

    open spec fn view(&self) -> VelocityI {
        VelocityI { linear: self.linear@, angular: self.angular@ }
    }
}

impl Velocity {
    /// A body at rest.
    pub fn zero() -> (r: Velocity)
        ensures
            r@ == (VelocityI { linear: V2i { x: 0, y: 0 }, angular: 0 }),
    {
        Velocity { linear: Vec2::zero(), angular: Fx::zero() }
    }

    /// Build a velocity from its parts.
    pub fn new(linear: Vec2, angular: Fx) -> (r: Velocity)
        ensures
            r@ == (VelocityI { linear: linear@, angular: angular@ }),
    {
        Velocity { linear, angular }
    }
}

/// A mass-like quantity stored by its inverse; a zero inverse stands
/// for an immovable axis.
#[derive(Clone, Copy, Debug, PartialEq, Eq, Structural)]
pub struct Invertible {
    inv: Fx,
}

impl View for Invertible {
    type V = int;

    closed spec fn view(&self) -> int {
        self.inv@
    }
}

impl Invertible {
    #[verifier::type_invariant]
    spec fn wf(self) -> bool {
        self.inv@ >= 0
    }

    /// An immovable quantity: inverse zero.
    pub fn fixed() -> (r: Invertible)
        ensures
            r@ == 0,
    {
        Invertible { inv: Fx::zero() }
    }

    /// A finite quantity, stored as its reciprocal.
    pub fn from_value(value: Fx) -> (r: Invertible)
        requires
            value@ > 0,
        ensures
            r@ == fx_div(SCALE as int, value@),
    {
        proof {
            crate::fx::lemma_tdiv_bound((SCALE as int) * (SCALE as int), value@);
        }
        Invertible { inv: Fx::one().over(value) }
    }

    /// A quantity given directly by its (non-negative) inverse.
    pub fn from_inv(inv: Fx) -> (r: Invertible)
        requires
            inv@ >= 0,
        ensures
            r@ == inv@,
    {
        Invertible { inv }
    }

    /// The stored inverse; zero means immovable.
    pub fn get_inv(&self) -> (r: Fx)
        ensures
            r@ == self@,
            self@ >= 0,
    {
        proof {
            use_type_invariant(self);
        }
        self.inv
    }
}

/// The dynamic state of one physical object.
#[derive(Clone, Copy, Debug, PartialEq, Eq, Structural)]
pub struct RigidBody {
    pub mass: Invertible,
    pub moment_of_inertia: Invertible,
    pub velocity: Velocity,
}

impl View for RigidBody {
    type V = BodyI;

    open spec fn view(&self) -> BodyI {
        BodyI { inv_mass: self.mass@, inv_moi: self.moment_of_inertia@, vel: self.velocity@ }
    }
}

impl RigidBody {
    /// A movable body at rest with the given mass and moment of inertia.
    pub fn new_dynamic(mass: Fx, moment_of_inertia: Fx) -> (r: RigidBody)
        requires
            mass@ > 0,
            moment_of_inertia@ > 0,
        ensures
            r@.inv_mass == fx_div(SCALE as int, mass@),
            r@.inv_moi == fx_div(SCALE as int, moment_of_inertia@),
            r@.vel == (VelocityI { linear: V2i { x: 0, y: 0 }, angular: 0 }),
    {
        RigidBody {
            mass: Invertible::from_value(mass),
            moment_of_inertia: Invertible::from_value(moment_of_inertia),
            velocity: Velocity::zero(),
        }
    }

    /// An immovable body: zero inverse mass and inertia, at rest.
    pub fn new_static() -> (r: RigidBody)
        ensures
            r@.inv_mass == 0,
            r@.inv_moi == 0,
            r@.vel == (VelocityI { linear: V2i { x: 0, y: 0 }, angular: 0 }),
    {
        RigidBody {
            mass: Invertible::fixed(),
            moment_of_inertia: Invertible::fixed(),
            velocity: Velocity::zero(),
        }
    }

    /// The same body with another velocity.
    pub fn with_velocity(self, velocity: Velocity) -> (r: RigidBody)
        ensures
            r.mass == self.mass,
            r.moment_of_inertia == self.moment_of_inertia,
            r.velocity == velocity,
    {
        RigidBody { mass: self.mass, moment_of_inertia: self.moment_of_inertia, velocity }
    }
}

} // verus!
