//! Whole-tick scenarios through the collision solver.

use moleengine::body::{RigidBody, Velocity};
use moleengine::broadphase::AllPairs;
use moleengine::collider::Collider;
use moleengine::fx::{Fx, SCALE};
use moleengine::integrator::SemiImplicitEuler;
use moleengine::solver::{CollisionEvent, CollisionSolver, RigidBodyFilter};
use moleengine::vec2::{Pose, Vec2};

fn fx(units: i64) -> Fx {
    Fx::from_units(units)
}

fn unit_circle(id: u64, x: Fx, vx: Fx) -> RigidBodyFilter {
    RigidBodyFilter {
        id,
        tr: Pose::new(Vec2::new(x, fx(0))),
        body: RigidBody::new_dynamic(fx(1), fx(1))
            .with_velocity(Velocity::new(Vec2::new(vx, fx(0)), fx(0))),
        coll: Some(Collider::new_circle(fx(1))),
    }
}

#[test]
fn equal_mass_headon_collision_splits_the_velocity() {
    // a resting circle at the origin, an equal circle approaching at
    // (-2, 0) from (3, 0): after the tick where they first overlap both
    // x velocities must be close to -1
    let mut items = vec![unit_circle(0, fx(0), fx(0)), unit_circle(1, fx(3), fx(-2))];
    let mut queue: Vec<CollisionEvent> = Vec::new();
    let mut solver = CollisionSolver::with_timestep(fx(1), 10);
    solver.run_system::<SemiImplicitEuler, AllPairs>(&mut items, &mut queue);
    // ten sequential-impulse passes halve the approach velocity each time
    assert_eq!(items[0].body.velocity.linear.x.raw(), -999_023);
    assert_eq!(items[1].body.velocity.linear.x.raw(), -1_000_977);
    // two symmetric events with positive depth and opposite unit normals
    assert_eq!(queue.len(), 2);
    assert_eq!(queue[0].source, 0);
    assert_eq!(queue[0].other, 1);
    assert_eq!(queue[1].source, 1);
    assert_eq!(queue[1].other, 0);
    assert!(queue[0].depth.raw() > 0);
    assert_eq!(queue[0].depth.raw(), queue[1].depth.raw());
    // the first event carries the contact normal (toward the second
    // body); the second event the exact opposite
    assert_eq!(queue[0].normal.x.raw(), SCALE);
    assert_eq!(queue[1].normal.x.raw(), -SCALE);
    assert_eq!(queue[0].normal.y.raw(), 0);
    assert_eq!(queue[1].normal.y.raw(), 0);
    // the debug surface publishes the one contact of the substep
    assert_eq!(solver.last_contacts().len(), 1);
    assert_eq!(solver.last_contacts()[0].id1, 0);
    assert_eq!(solver.last_contacts()[0].id2, 1);
}

#[test]
fn one_pass_absorbs_a_headon_approach_completely() {
    // rotationally fixed bodies of equal mass with opposite velocities:
    // one resolution pass leaves both normal velocities exactly zero
    let fixed_moi = |id: u64, x: Fx, vx: Fx| RigidBodyFilter {
        id,
        tr: Pose::new(Vec2::new(x, fx(0))),
        body: RigidBody {
            mass: moleengine::body::Invertible::from_value(fx(1)),
            moment_of_inertia: moleengine::body::Invertible::fixed(),
            velocity: Velocity::new(Vec2::new(vx, fx(0)), fx(0)),
        },
        coll: Some(Collider::new_circle(fx(1))),
    };
    let mut items = vec![
        fixed_moi(0, fx(0), fx(1)),
        fixed_moi(1, Fx::from_raw(1_500_000), fx(-1)),
    ];
    let mut queue: Vec<CollisionEvent> = Vec::new();
    let mut solver = CollisionSolver::with_timestep(Fx::from_raw(100_000), 1);
    solver.run_system::<SemiImplicitEuler, AllPairs>(&mut items, &mut queue);
    assert_eq!(items[0].body.velocity.linear.x.raw(), 0);
    assert_eq!(items[1].body.velocity.linear.x.raw(), 0);
}

#[test]
fn separating_bodies_keep_their_velocities() {
    // already overlapping but moving apart: the contact is reported but
    // no impulse is applied
    let mut items = vec![
        unit_circle(0, fx(0), fx(-1)),
        unit_circle(1, fx(1), fx(1)),
    ];
    let mut queue: Vec<CollisionEvent> = Vec::new();
    let mut solver = CollisionSolver::with_timestep(Fx::from_raw(100_000), 4);
    solver.run_system::<SemiImplicitEuler, AllPairs>(&mut items, &mut queue);
    assert_eq!(queue.len(), 2);
    assert_eq!(items[0].body.velocity.linear.x.raw(), -SCALE);
    assert_eq!(items[1].body.velocity.linear.x.raw(), SCALE);
}

#[test]
fn a_static_body_keeps_its_velocity_exactly() {
    let mut items = vec![
        RigidBodyFilter {
            id: 0,
            tr: Pose::new(Vec2::new(fx(0), fx(0))),
            body: RigidBody::new_static(),
            coll: Some(Collider::new_circle(fx(1))),
        },
        unit_circle(1, Fx::from_raw(2_500_000), fx(-1)),
    ];
    let mut queue: Vec<CollisionEvent> = Vec::new();
    let mut solver = CollisionSolver::with_timestep(fx(1), 5);
    solver.run_system::<SemiImplicitEuler, AllPairs>(&mut items, &mut queue);
    // all velocity change lands on the dynamic body
    assert_eq!(items[0].body.velocity.linear.x.raw(), 0);
    assert_eq!(items[0].body.velocity.linear.y.raw(), 0);
    assert_eq!(items[0].body.velocity.angular.raw(), 0);
    assert_eq!(items[1].body.velocity.linear.x.raw(), -31_250);
}

#[test]
fn no_colliders_means_no_events() {
    let mut items = vec![RigidBodyFilter {
        id: 0,
        tr: Pose::new(Vec2::new(fx(0), fx(0))),
        body: RigidBody::new_dynamic(fx(1), fx(1))
            .with_velocity(Velocity::new(Vec2::new(fx(0), fx(-3)), fx(0))),
        coll: None,
    }];
    let mut queue: Vec<CollisionEvent> = Vec::new();
    let mut solver = CollisionSolver::with_timestep(fx(1), 8);
    solver.run_system::<SemiImplicitEuler, AllPairs>(&mut items, &mut queue);
    assert!(queue.is_empty());
    assert!(solver.last_contacts().is_empty());
    // integration still happened
    assert_eq!(items[0].tr.pos.y.raw(), -3 * SCALE);
}

#[test]
fn the_second_event_offsets_its_manifold() {
    let mut items = vec![unit_circle(0, fx(0), fx(0)), unit_circle(1, fx(3), fx(-2))];
    let mut queue: Vec<CollisionEvent> = Vec::new();
    let mut solver = CollisionSolver::with_timestep(fx(1), 1);
    solver.run_system::<SemiImplicitEuler, AllPairs>(&mut items, &mut queue);
    assert_eq!(queue.len(), 2);
    // contact point on the first circle's surface
    let p0 = queue[0].manifold.point(0);
    assert_eq!((p0.x.raw(), p0.y.raw()), (SCALE, 0));
    // the second event shifts it by depth along the contact normal
    let p1 = queue[1].manifold.point(0);
    assert_eq!((p1.x.raw(), p1.y.raw()), (0, 0));
}

#[test]
fn set_timestep_changes_only_the_timestep() {
    let mut solver = CollisionSolver::with_timestep(fx(1), 7);
    solver.set_timestep(Fx::from_raw(16_667));
    assert_eq!(solver.timestep.raw(), 16_667);
    assert_eq!(solver.iterations, 7);
}
