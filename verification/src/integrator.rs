//! Pluggable numerical integration strategies.
//!
//! A strategy is a stepping session: `begin_step` opens a session for a
//! fixed timestep, and `substep` advances poses and velocities by one
//! portion of the step.  A substep that returns `NeedsDerivatives` asks
//! the caller to evaluate forces and contacts before the next substep;
//! `Complete` ends the step and leaves the objects untouched.  The
//! session exposes how many substeps are left (which bounds the solver
//! loop and decides completion), its state after a substep, and the
//! step rule itself, so a strategy's whole course is part of its
//! contract.

use vstd::prelude::*;

use crate::body::{BodyI, VelocityI};
use crate::fx::{fx_mul, Fx};
use crate::solver::{RigidBodyFilter, ObjectI};
use crate::vec2::{rot_compose, rot_small, v2_add, v2_scale, PoseI, Rotor, Vec2};

verus! {

/// What a substep reports: the session either needs another
/// force/contact evaluation or has fully applied the step.
#[derive(Clone, Copy, Debug, PartialEq, Eq, Structural)]
pub enum IntegratorState {
    NeedsDerivatives,
    Complete,
}

/// A pluggable integration strategy.  The spec functions make each
/// strategy's whole behaviour part of its contract: a session with
/// substeps left advances every object by exactly its step rule and
/// moves to the `stepped` session state; a session with none left
/// reports `Complete` and changes nothing.  A caller therefore knows
/// the full course of a step from the fresh session alone.
pub trait Integrator: Sized {
    /// A session just opened by `begin_step` for this timestep.
    spec fn fresh(self, timestep: int) -> bool;

    /// How many advancing substeps the session still has; each
    /// `NeedsDerivatives` substep decreases it.
    spec fn substeps_left(&self) -> nat;

    /// The session state after one substep.
    spec fn stepped(&self) -> Self;

    /// The velocity one substep of this session gives a body.
    spec fn next_vel(&self, pose: PoseI, body: BodyI) -> VelocityI;

    /// The pose one substep of this session gives a body.
    spec fn next_pose(&self, pose: PoseI, body: BodyI) -> PoseI;

    /// Open a fresh stepping session for one step of `timestep`.
    fn begin_step(timestep: Fx) -> (r: Self)
        ensures
            r.fresh(timestep@),
    ;

    /// Advance all objects by one portion of the step.
    fn substep(&mut self, items: &mut Vec<RigidBodyFilter>) -> (r: IntegratorState)
        ensures
            *final(self) == old(self).stepped(),
            (r is Complete) <==> old(self).substeps_left() == 0,
            final(items)@.len() == old(items)@.len(),
            forall|i: int|
                0 <= i < old(items)@.len() ==> {
                    let pre = #[trigger] old(items)@[i];
                    let post = final(items)@[i];
                    &&& post.id == pre.id
                    &&& post.coll == pre.coll
                    &&& post.body.mass == pre.body.mass
                    &&& post.body.moment_of_inertia == pre.body.moment_of_inertia
                },
            r is NeedsDerivatives ==> final(self).substeps_left() < old(self).substeps_left()
                && forall|i: int|
                0 <= i < old(items)@.len() ==> {
                    let pre = #[trigger] old(items)@[i];
                    let post = final(items)@[i];
                    &&& post.body.velocity@ == old(self).next_vel(pre.tr@, pre.body@)
                    &&& post.tr@ == old(self).next_pose(pre.tr@, pre.body@)
                },
            r is Complete ==> final(items)@ == old(items)@,
    ;
}

/// Semi-implicit Euler: one advancing substep per step.  The velocity
/// first takes the session's constant external acceleration (bodies
/// with zero inverse mass are immovable and skip it), then the position
/// advances with the new velocity, and the orientation turns by the
/// small-angle rotor of the angular velocity times the timestep.
pub struct SemiImplicitEuler {
    /// Length of the whole step, in seconds.
    pub timestep: Fx,
    /// Constant external acceleration applied to movable bodies.
    pub accel: Vec2,
    /// Whether the single advancing substep has run.
    pub applied: bool,
}

impl SemiImplicitEuler {
    /// A session with an explicit external acceleration, for callers
    /// that integrate under a constant force field.
    pub fn new(timestep: Fx, accel: Vec2) -> (r: SemiImplicitEuler)
        ensures
            r.timestep == timestep,
            r.accel == accel,
            !r.applied,
    {
        SemiImplicitEuler { timestep, accel, applied: false }
    }
}

impl Integrator for SemiImplicitEuler {
    open spec fn fresh(self, timestep: int) -> bool {
        &&& self.timestep@ == timestep
        &&& self.accel@ == (crate::vec2::V2i { x: 0, y: 0 })
        &&& !self.applied
    }

    open spec fn substeps_left(&self) -> nat {
        if self.applied {
            0
        } else {
            1
        }
    }

    open spec fn stepped(&self) -> Self {
        SemiImplicitEuler { timestep: self.timestep, accel: self.accel, applied: true }
    }

    open spec fn next_vel(&self, pose: PoseI, body: BodyI) -> VelocityI {
        VelocityI {
            linear: if body.inv_mass > 0 {
                v2_add(body.vel.linear, v2_scale(self.accel@, self.timestep@))
            } else {
                body.vel.linear
            },
            angular: body.vel.angular,
        }
    }

    open spec fn next_pose(&self, pose: PoseI, body: BodyI) -> PoseI {
        PoseI {
            pos: v2_add(pose.pos, v2_scale(self.next_vel(pose, body).linear, self.timestep@)),
            rot: rot_compose(pose.rot, rot_small(fx_mul(body.vel.angular, self.timestep@))),
        }
    }

    fn begin_step(timestep: Fx) -> (r: Self) {
        SemiImplicitEuler::new(timestep, Vec2::zero())
    }

    fn substep(&mut self, items: &mut Vec<RigidBodyFilter>) -> (r: IntegratorState) {
        if self.applied {
            return IntegratorState::Complete;
        }
        let n = items.len();
        let mut i: usize = 0;
        while i < n
            invariant
                i <= n,
                items@.len() == n as int,
                n as int == old(items)@.len(),
                !old(self).applied,
                *self == *old(self),
                forall|k: int| i as int <= k < n as int ==> items@[k] == old(items)@[k],
                forall|k: int|
                    0 <= k < i as int ==> {
                        let pre = #[trigger] old(items)@[k];
                        let post = items@[k];
                        &&& post.id == pre.id
                        &&& post.coll == pre.coll
                        &&& post.body.mass == pre.body.mass
                        &&& post.body.moment_of_inertia == pre.body.moment_of_inertia
                        &&& post.body.velocity@ == old(self).next_vel(pre.tr@, pre.body@)
                        &&& post.tr@ == old(self).next_pose(pre.tr@, pre.body@)
                    },
            decreases n - i,
        {
            let mut o = items[i];
            let new_linear = if o.body.mass.get_inv().raw() > 0 {
                o.body.velocity.linear.plus(self.accel.scale(self.timestep))
            } else {
                o.body.velocity.linear
            };
            let new_vel = crate::body::Velocity::new(new_linear, o.body.velocity.angular);
            let turn = Rotor::from_small_angle(o.body.velocity.angular.times(self.timestep));
            let new_tr = o.tr.translated_by(new_linear.scale(self.timestep)).rotated_by(turn);
            o.body = o.body.with_velocity(new_vel);
            o.tr = new_tr;
            items.set(i, o);
            i = i + 1;
        }
        self.applied = true;
        IntegratorState::NeedsDerivatives
    }
}

} // verus!
