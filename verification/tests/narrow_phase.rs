//! Exact intersection tests: verdicts, normals, depths and manifolds.

use moleengine::broadphase::Collidable;
use moleengine::collider::Collider;
use moleengine::fx::{Fx, SCALE};
use moleengine::narrowphase::intersection_check;
use moleengine::vec2::{Pose, Rotor, Vec2};

fn fx(units: i64) -> Fx {
    Fx::from_units(units)
}

fn raw(raw: i64) -> Fx {
    Fx::from_raw(raw)
}

fn circle_at(id: u64, x: Fx, y: Fx, r: Fx) -> Collidable {
    Collidable { id, tr: Pose::new(Vec2::new(x, y)), coll: Collider::new_circle(r) }
}

fn square_at(id: u64, x: Fx, y: Fx, side: Fx) -> Collidable {
    Collidable { id, tr: Pose::new(Vec2::new(x, y)), coll: Collider::new_square(side) }
}

#[test]
fn overlapping_circles_collide() {
    let a = circle_at(0, fx(0), fx(0), fx(1));
    let b = circle_at(1, fx(1), fx(0), fx(1));
    let c = intersection_check(&a, &b).expect("circles overlap");
    assert_eq!(c.normal.x.raw(), SCALE);
    assert_eq!(c.normal.y.raw(), 0);
    assert_eq!(c.depth.raw(), SCALE);
    assert_eq!(c.manifold.len(), 1);
    let p = c.manifold.point(0);
    assert_eq!((p.x.raw(), p.y.raw()), (SCALE, 0));
}

#[test]
fn distant_circles_do_not_collide() {
    let a = circle_at(0, fx(0), fx(0), fx(1));
    let b = circle_at(1, fx(3), fx(0), fx(1));
    assert!(intersection_check(&a, &b).is_none());
}

#[test]
fn touching_circles_do_not_collide() {
    let a = circle_at(0, fx(0), fx(0), fx(1));
    let b = circle_at(1, fx(2), fx(0), fx(1));
    assert!(intersection_check(&a, &b).is_none());
}

#[test]
fn swapped_circles_agree_and_oppose() {
    let a = circle_at(0, fx(0), fx(1), fx(2));
    let b = circle_at(1, fx(1), fx(2), fx(1));
    let ab = intersection_check(&a, &b).expect("overlap");
    let ba = intersection_check(&b, &a).expect("overlap");
    assert_eq!(ab.depth.raw(), ba.depth.raw());
    assert_eq!(ab.normal.x.raw(), -ba.normal.x.raw());
    assert_eq!(ab.normal.y.raw(), -ba.normal.y.raw());
}

#[test]
fn circle_against_rect_face() {
    // unit-half-extent square at the origin, circle of radius 1 at x = 1.5
    let sq = square_at(0, fx(0), fx(0), fx(2));
    let ci = circle_at(1, raw(1_500_000), fx(0), fx(1));
    let c = intersection_check(&ci, &sq).expect("overlap");
    // normal from the circle toward the rectangle
    assert_eq!((c.normal.x.raw(), c.normal.y.raw()), (-SCALE, 0));
    assert_eq!(c.depth.raw(), 500_000);
    let p = c.manifold.point(0);
    assert_eq!((p.x.raw(), p.y.raw()), (SCALE, 0));
}

#[test]
fn rect_against_circle_flips_the_normal() {
    let sq = square_at(0, fx(0), fx(0), fx(2));
    let ci = circle_at(1, raw(1_500_000), fx(0), fx(1));
    let c = intersection_check(&sq, &ci).expect("overlap");
    assert_eq!((c.normal.x.raw(), c.normal.y.raw()), (SCALE, 0));
    assert_eq!(c.depth.raw(), 500_000);
}

#[test]
fn circle_touching_rect_face_does_not_collide() {
    let sq = square_at(0, fx(0), fx(0), fx(2));
    let ci = circle_at(1, fx(2), fx(0), fx(1));
    assert!(intersection_check(&ci, &sq).is_none());
}

#[test]
fn circle_center_inside_rect() {
    // circle center just right of the rect center: pushed out through +x
    let sq = square_at(0, fx(0), fx(0), fx(2));
    let ci = circle_at(1, raw(200_000), fx(0), fx(1));
    let c = intersection_check(&ci, &sq).expect("overlap");
    assert_eq!((c.normal.x.raw(), c.normal.y.raw()), (-SCALE, 0));
    // depth: radius plus remaining distance to the +x face
    assert_eq!(c.depth.raw(), 1_800_000);
}

#[test]
fn overlapping_rects_collide_on_the_least_axis() {
    let a = square_at(0, fx(0), fx(0), fx(2));
    let b = square_at(1, raw(1_500_000), fx(0), fx(2));
    let c = intersection_check(&a, &b).expect("overlap");
    assert_eq!((c.normal.x.raw(), c.normal.y.raw()), (SCALE, 0));
    assert_eq!(c.depth.raw(), 500_000);
    // the two left corners of the second square penetrate
    assert_eq!(c.manifold.len(), 2);
    let p0 = c.manifold.point(0);
    let p1 = c.manifold.point(1);
    assert_eq!((p0.x.raw(), p0.y.raw()), (500_000, SCALE));
    assert_eq!((p1.x.raw(), p1.y.raw()), (500_000, -SCALE));
}

#[test]
fn separated_rects_do_not_collide() {
    let a = square_at(0, fx(0), fx(0), fx(2));
    let b = square_at(1, fx(3), fx(0), fx(2));
    assert!(intersection_check(&a, &b).is_none());
}

#[test]
fn swapped_rects_agree_and_oppose() {
    let a = square_at(0, fx(0), fx(0), fx(2));
    let b = square_at(1, raw(1_200_000), raw(300_000), fx(2));
    let ab = intersection_check(&a, &b).expect("overlap");
    let ba = intersection_check(&b, &a).expect("overlap");
    assert_eq!(ab.depth.raw(), ba.depth.raw());
    assert_eq!(ab.normal.x.raw(), -ba.normal.x.raw());
    assert_eq!(ab.normal.y.raw(), -ba.normal.y.raw());
}

#[test]
fn rotated_rect_meets_circle() {
    // square turned a quarter turn: cos 0, sin 1 — still axis aligned in
    // effect, so the face test must behave as for the unturned square
    let rot = Rotor::new(fx(0), fx(1));
    let sq = Collidable {
        id: 0,
        tr: Pose::with_rotation(Vec2::new(fx(0), fx(0)), rot),
        coll: Collider::new_rect(fx(2), fx(2)),
    };
    let ci = circle_at(1, raw(1_500_000), fx(0), fx(1));
    let c = intersection_check(&ci, &sq).expect("overlap");
    assert_eq!(c.depth.raw(), 500_000);
    assert_eq!((c.normal.x.raw(), c.normal.y.raw()), (-SCALE, 0));
}
