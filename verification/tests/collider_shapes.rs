//! Collider construction and derived quantities.

use moleengine::collider::{Collider, ColliderShape, PI_RAW};
use moleengine::fx::{Fx, SCALE};

fn fx(units: i64) -> Fx {
    Fx::from_units(units)
}

#[test]
fn circle_area_is_pi_r_squared() {
    let c = Collider::new_circle(fx(1));
    assert_eq!(c.area().raw(), PI_RAW);
    let c2 = Collider::new_circle(fx(2));
    assert_eq!(c2.area().raw(), 4 * PI_RAW);
}

#[test]
fn doubling_a_radius_quadruples_the_area() {
    for r in [1i64, 2, 3, 10, 25] {
        let a = Collider::new_circle(fx(r)).area().raw();
        let a2 = Collider::new_circle(fx(2 * r)).area().raw();
        assert_eq!(a2, 4 * a);
    }
}

#[test]
fn rect_area_is_width_times_height() {
    let r = Collider::new_rect(fx(2), fx(3));
    assert_eq!(r.area().raw(), 6 * SCALE);
    let sq = Collider::new_square(fx(2));
    assert_eq!(sq.area().raw(), 4 * SCALE);
}

#[test]
fn rect_stores_halved_extents() {
    let r = Collider::new_rect(fx(2), fx(4));
    match *r.shape() {
        ColliderShape::Rect { hw, hh } => {
            assert_eq!(hw.raw(), SCALE);
            assert_eq!(hh.raw(), 2 * SCALE);
        }
        _ => panic!("expected a rect"),
    }
}

#[test]
fn moment_of_inertia_coefficients() {
    // circle: r^2 / 2
    let c = Collider::new_circle(fx(2));
    assert_eq!(c.moment_of_inertia_coef().raw(), 2 * SCALE);
    // rect: (hw^2 + hh^2) / 3
    let r = Collider::new_rect(fx(2), fx(2));
    assert_eq!(r.moment_of_inertia_coef().raw(), 666_666);
}

#[test]
fn measures_are_positive_even_for_small_shapes() {
    let c = Collider::new_circle(Fx::from_raw(2_000));
    assert!(c.area().raw() > 0);
    assert!(c.moment_of_inertia_coef().raw() > 0);
    let r = Collider::new_rect(Fx::from_raw(4_000), Fx::from_raw(4_000));
    assert!(r.area().raw() > 0);
    assert!(r.moment_of_inertia_coef().raw() > 0);
}

#[test]
fn bounding_radius_covers_the_shape() {
    let c = Collider::new_circle(fx(3));
    assert_eq!(c.bounding_radius().raw(), 3 * SCALE);
    // unit square: corner distance sqrt(2)/... half-extents 1, corner at
    // sqrt(2) ~ 1.414213, rounded down then padded by one raw count
    let r = Collider::new_square(fx(2));
    assert_eq!(r.bounding_radius().raw(), 1_414_214);
}
