//! The semi-implicit Euler stepping session.

use moleengine::body::{RigidBody, Velocity};
use moleengine::collider::Collider;
use moleengine::fx::{Fx, SCALE};
use moleengine::integrator::{Integrator, IntegratorState, SemiImplicitEuler};
use moleengine::solver::RigidBodyFilter;
use moleengine::vec2::{Pose, Vec2};

fn fx(units: i64) -> Fx {
    Fx::from_units(units)
}

fn body_at(id: u64, x: i64, y: i64, vel: Velocity) -> RigidBodyFilter {
    RigidBodyFilter {
        id,
        tr: Pose::new(Vec2::new(fx(x), fx(y))),
        body: RigidBody::new_dynamic(fx(1), fx(1)).with_velocity(vel),
        coll: None,
    }
}

#[test]
fn a_downward_force_increases_downward_velocity() {
    // a rectangle at rest under a constant downward acceleration for one
    // step: velocity takes a full step of the acceleration, position a
    // full step of the new velocity
    let mut items = vec![RigidBodyFilter {
        id: 0,
        tr: Pose::new(Vec2::new(fx(0), fx(0))),
        body: RigidBody::new_dynamic(fx(1), fx(1)),
        coll: Some(Collider::new_rect(fx(2), fx(2))),
    }];
    let mut session = SemiImplicitEuler::new(fx(1), Vec2::new(fx(0), fx(-10)));
    let st = session.substep(&mut items);
    assert_eq!(st, IntegratorState::NeedsDerivatives);
    assert_eq!(items[0].body.velocity.linear.y.raw(), -10 * SCALE);
    assert_eq!(items[0].tr.pos.y.raw(), -10 * SCALE);
    // the second substep completes the step and changes nothing
    let st2 = session.substep(&mut items);
    assert_eq!(st2, IntegratorState::Complete);
    assert_eq!(items[0].body.velocity.linear.y.raw(), -10 * SCALE);
    assert_eq!(items[0].tr.pos.y.raw(), -10 * SCALE);
}

#[test]
fn position_advances_with_the_new_velocity() {
    let mut items = vec![body_at(0, 2, 3, Velocity::new(Vec2::new(fx(4), fx(-1)), fx(0)))];
    let mut session = SemiImplicitEuler::new(Fx::from_raw(500_000), Vec2::zero());
    session.substep(&mut items);
    // half a second at (4, -1) units per second
    assert_eq!(items[0].tr.pos.x.raw(), 4 * SCALE);
    assert_eq!(items[0].tr.pos.y.raw(), 2_500_000);
    assert_eq!(items[0].body.velocity.linear.x.raw(), 4 * SCALE);
}

#[test]
fn an_immovable_body_ignores_the_force_field() {
    let mut items = vec![RigidBodyFilter {
        id: 3,
        tr: Pose::new(Vec2::new(fx(5), fx(5))),
        body: RigidBody::new_static(),
        coll: None,
    }];
    let mut session = SemiImplicitEuler::new(fx(1), Vec2::new(fx(0), fx(-10)));
    session.substep(&mut items);
    assert_eq!(items[0].body.velocity.linear.y.raw(), 0);
    assert_eq!(items[0].tr.pos.y.raw(), 5 * SCALE);
}

#[test]
fn angular_velocity_turns_the_pose() {
    let w = Fx::from_raw(100_000);  // a tenth of a radian per second
    let mut items = vec![body_at(0, 0, 0, Velocity::new(Vec2::zero(), w))];
    let mut session = SemiImplicitEuler::new(fx(1), Vec2::zero());
    session.substep(&mut items);
    // small-angle rotor: cosine 1 - angle^2/2, sine angle
    assert_eq!(items[0].tr.rot.s.raw(), 100_000);
    assert_eq!(items[0].tr.rot.c.raw(), SCALE - 5_000);
}
