//! Collision shapes and their derived physical quantities.
//!
//! A collider is an immutable shape descriptor: a circle or a rectangle
//! stored as half-extents.  Dimensions are strictly positive; the
//! constructors state that as a precondition, so a collider value is
//! always a valid shape.

use vstd::prelude::*;

use crate::fx::{fx_add, fx_divn, fx_hypot, fx_mul, sat64, tdiv, Fx, SCALE};

verus! {

/// Raw count of the circle constant with six decimal places.
pub const PI_RAW: i64 = 3_141_593;

/// Ghost mirror of a shape: extents as raw counts.
pub ghost enum ShapeI {
    Circle { r: int },
    Rect { hw: int, hh: int },
}

/// A shape has strictly positive extents.
pub open spec fn shape_wf(s: ShapeI) -> bool {
    match s {
        ShapeI::Circle { r } => r > 0,
        ShapeI::Rect { hw, hh } => hw > 0 && hh > 0,
    }
}

/// Area of a shape: `pi r^2` for circles, `4 hw hh` for rectangles.
pub open spec fn shape_area(s: ShapeI) -> int {
    match s {
        ShapeI::Circle { r } => fx_mul(fx_mul(r, r), PI_RAW as int),
        ShapeI::Rect { hw, hh } => fx_mul(fx_mul(hw, hh), 4 * (SCALE as int)),
    }
}

/// Moment-of-inertia coefficient: the moment of inertia of a body with
/// this shape is its mass times this value.  `r^2 / 2` for circles,
/// `(hw^2 + hh^2) / 3` for rectangles.
pub open spec fn shape_moi_coef(s: ShapeI) -> int {
    match s {
        ShapeI::Circle { r } => fx_divn(fx_mul(r, r), 2),
        ShapeI::Rect { hw, hh } => fx_divn(fx_add(fx_mul(hw, hw), fx_mul(hh, hh)), 3),
    }
}

/// Radius of a circle around the pose position that covers the whole
/// shape: the radius itself for circles, and one raw count above the
/// rounded-down corner distance for rectangles.
pub open spec fn shape_bound_radius(s: ShapeI) -> int {
    match s {
        ShapeI::Circle { r } => r,
        ShapeI::Rect { hw, hh } => fx_add(fx_hypot(hw, hh), 1),
    }
}

/// Positive measures: every shape whose extents are at least two
/// thousandths of a unit has a strictly positive area and a strictly
/// positive moment-of-inertia coefficient.  (Extents below that fall
/// under the fixed-point grid: their squares round down to zero.)
pub proof fn lemma_shape_measures_positive(s: ShapeI)
    requires
        match s {
            ShapeI::Circle { r } => 2_000 <= r,
            ShapeI::Rect { hw, hh } => 2_000 <= hw && 2_000 <= hh,
        },
        shape_wf(s),
    ensures
        shape_area(s) > 0,
        shape_moi_coef(s) > 0,
{
    let sc = SCALE as int;
    match s {
        ShapeI::Circle { r } => {
            assert(r * r >= 4 * sc) by (nonlinear_arith)
                requires
                    r >= 2_000,
                    sc == 1_000_000,
            ;
            assert(tdiv(r * r, sc) >= 4) by {
                vstd::arithmetic::div_mod::lemma_div_is_ordered(4 * sc, r * r, sc);
                vstd::arithmetic::div_mod::lemma_div_multiples_vanish(4, sc);
            }
            let a = fx_mul(r, r);
            assert(a >= 4);
            assert(a * (PI_RAW as int) >= 4 * (PI_RAW as int)) by (nonlinear_arith)
                requires
                    a >= 4,
            ;
            assert(tdiv(a * (PI_RAW as int), sc) >= 12) by {
                vstd::arithmetic::div_mod::lemma_div_is_ordered(
                    4 * (PI_RAW as int),
                    a * (PI_RAW as int),
                    sc,
                );
            }
            assert(tdiv(a, 2) >= 2) by {
                vstd::arithmetic::div_mod::lemma_div_is_ordered(4, a, 2);
            }
        },
        ShapeI::Rect { hw, hh } => {
            assert(hw * hh >= 4 * sc && hw * hw >= 4 * sc && hh * hh >= 4 * sc)
                by (nonlinear_arith)
                requires
                    hw >= 2_000,
                    hh >= 2_000,
                    sc == 1_000_000,
            ;
            assert(tdiv(hw * hh, sc) >= 4 && tdiv(hw * hw, sc) >= 4 && tdiv(hh * hh, sc) >= 4)
                by {
                vstd::arithmetic::div_mod::lemma_div_is_ordered(4 * sc, hw * hh, sc);
                vstd::arithmetic::div_mod::lemma_div_is_ordered(4 * sc, hw * hw, sc);
                vstd::arithmetic::div_mod::lemma_div_is_ordered(4 * sc, hh * hh, sc);
                vstd::arithmetic::div_mod::lemma_div_multiples_vanish(4, sc);
            }
            let a = fx_mul(hw, hh);
            assert(a >= 4);
            assert(a * (4 * sc) >= 4 * (4 * sc)) by (nonlinear_arith)
                requires
                    a >= 4,
                    sc > 0,
            ;
            assert(tdiv(a * (4 * sc), sc) >= 16) by {
                vstd::arithmetic::div_mod::lemma_div_is_ordered(4 * (4 * sc), a * (4 * sc), sc);
                assert((4 * (4 * sc)) / sc == 16) by {
                    vstd::arithmetic::div_mod::lemma_div_multiples_vanish(16, sc);
                    assert(4 * (4 * sc) == sc * 16) by (nonlinear_arith);
                }
            }
            let m = fx_add(fx_mul(hw, hw), fx_mul(hh, hh));
            assert(m >= 8);
            assert(tdiv(m, 3) >= 2) by {
                vstd::arithmetic::div_mod::lemma_div_is_ordered(8, m, 3);
            }
        },
    }
}

/// Doubling a circle's radius quadruples its area, exactly, for whole-
/// unit radii small enough that nothing saturates.
pub proof fn lemma_circle_area_quadruples(r: int)
    requires
        r % (SCALE as int) == 0,
        0 < r <= 8_000_000_000,
    ensures
        shape_area(ShapeI::Circle { r: 2 * r }) == 4 * shape_area(ShapeI::Circle { r: r }),
{
    let sc = SCALE as int;
    let k = r / sc;
    assert(r == sc * k) by {
        vstd::arithmetic::div_mod::lemma_fundamental_div_mod(r, sc);
    }
    assert(1 <= k <= 8_000) by (nonlinear_arith)
        requires
            r == sc * k,
            0 < r <= 8_000_000_000,
            sc == 1_000_000,
    ;
    // squared radii are exact whole multiples of the scale
    assert(r * r == sc * (sc * (k * k))) by (nonlinear_arith)
        requires
            r == sc * k,
    ;
    assert((2 * r) * (2 * r) == sc * (sc * (4 * (k * k)))) by (nonlinear_arith)
        requires
            r == sc * k,
    ;
    assert(1 <= k * k <= 64_000_000) by (nonlinear_arith)
        requires
            1 <= k <= 8_000,
    ;
    let kk = k * k;
    assert(1 <= kk <= 64_000_000);
    assert(r * r > 0 && (2 * r) * (2 * r) > 0) by (nonlinear_arith)
        requires
            r > 0,
    ;
    vstd::arithmetic::div_mod::lemma_div_multiples_vanish(sc * kk, sc);
    vstd::arithmetic::div_mod::lemma_div_multiples_vanish(sc * (4 * kk), sc);
    assert(fx_mul(r, r) == sat64(sc * kk));
    assert(sc * kk <= 64_000_000_000_000 && sc * kk >= sc) by (nonlinear_arith)
        requires
            1 <= kk <= 64_000_000,
            sc == 1_000_000,
    ;
    assert(fx_mul(r, r) == sc * kk);
    assert(sc * (4 * kk) == 4 * (sc * kk)) by (nonlinear_arith);
    assert(fx_mul(2 * r, 2 * r) == sc * (4 * kk));
    // multiplying by the circle constant keeps the whole multiple exact
    let pi = PI_RAW as int;
    assert((sc * kk) * pi == sc * (kk * pi)) by (nonlinear_arith);
    assert((sc * (4 * kk)) * pi == sc * (4 * (kk * pi))) by (nonlinear_arith);
    assert(kk * pi >= pi && kk * pi <= 64_000_000 * pi) by (nonlinear_arith)
        requires
            1 <= kk <= 64_000_000,
            pi > 0,
    ;
    assert((sc * kk) * pi > 0 && (sc * (4 * kk)) * pi > 0) by (nonlinear_arith)
        requires
            sc * kk > 0,
            sc * (4 * kk) > 0,
            pi > 0,
    ;
    vstd::arithmetic::div_mod::lemma_div_multiples_vanish(kk * pi, sc);
    vstd::arithmetic::div_mod::lemma_div_multiples_vanish(4 * (kk * pi), sc);
    assert(shape_area(ShapeI::Circle { r: r }) == sat64(kk * pi));
    assert(shape_area(ShapeI::Circle { r: 2 * r }) == sat64(4 * (kk * pi)));
    assert(4 * (kk * pi) <= 1_000_000_000_000_000) by (nonlinear_arith)
        requires
            kk <= 64_000_000,
            pi == 3_141_593,
    ;
}

/// The physical shape of a collider.
#[derive(Clone, Copy, Debug, PartialEq, Eq, Structural)]
pub enum ColliderShape {
    Circle { r: Fx },
    Rect { hw: Fx, hh: Fx },
}

impl View for ColliderShape {
    type V = ShapeI;

    open spec fn view(&self) -> ShapeI {
        match *self {
            ColliderShape::Circle { r } => ShapeI::Circle { r: r@ },
            ColliderShape::Rect { hw, hh } => ShapeI::Rect { hw: hw@, hh: hh@ },
        }
    }
}

/// A component that allows an object to collide with others.
#[derive(Clone, Copy, Debug, PartialEq, Eq, Structural)]
pub struct Collider {
    pub(crate) shape: ColliderShape,
}

impl View for Collider {
    type V = ShapeI;

    closed spec fn view(&self) -> ShapeI {
        self.shape@
    }
}

impl Collider {
    #[verifier::type_invariant]
    spec fn inv(self) -> bool {
        shape_wf(self@)
    }

    /// Create a circle collider from a radius.
    pub fn new_circle(radius: Fx) -> (r: Collider)
        requires
            radius@ > 0,
        ensures
            r@ == (ShapeI::Circle { r: radius@ }),
    {
        Collider { shape: ColliderShape::Circle { r: radius } }
    }

    /// Create a rect collider with both sides set to the same length.
    pub fn new_square(side_length: Fx) -> (r: Collider)
        requires
            side_length@ >= 2,
        ensures
            r@ == (ShapeI::Rect {
                hw: fx_divn(side_length@, 2),
                hh: fx_divn(side_length@, 2),
            }),
    {
        Collider::new_rect(side_length, side_length)
    }

    /// Create a rect collider with two different side lengths, stored
    /// halved because this makes intersection tests easier.
    pub fn new_rect(width: Fx, height: Fx) -> (r: Collider)
        requires
            width@ >= 2,
            height@ >= 2,
        ensures
            r@ == (ShapeI::Rect { hw: fx_divn(width@, 2), hh: fx_divn(height@, 2) }),
    {
        proof {
            crate::fx::lemma_tdiv_bound(width@, 2);
            crate::fx::lemma_tdiv_bound(height@, 2);
            assert(fx_divn(width@, 2) > 0 && fx_divn(height@, 2) > 0) by {
                assert(width@ / 2 >= 1 && height@ / 2 >= 1);
            }
        }
        let hw = width.divn(2);
        let hh = height.divn(2);
        Collider { shape: ColliderShape::Rect { hw, hh } }
    }

    /// The shape of this collider.
    pub fn shape(&self) -> (r: &ColliderShape)
        ensures
            r@ == self@,
            shape_wf(self@),
    {
        proof {
            use_type_invariant(self);
        }
        &self.shape
    }

    /// Area of the shape.
    pub fn area(&self) -> (r: Fx)
        ensures
            r@ == shape_area(self@),
    {
        match self.shape {
            ColliderShape::Circle { r } => r.times(r).times(Fx::from_raw(PI_RAW)),
            ColliderShape::Rect { hw, hh } => hw.times(hh).times(Fx::from_units(4)),
        }
    }

    /// Moment-of-inertia coefficient of the shape.
    pub fn moment_of_inertia_coef(&self) -> (r: Fx)
        ensures
            r@ == shape_moi_coef(self@),
    {
        match self.shape {
            ColliderShape::Circle { r } => r.times(r).divn(2),
            ColliderShape::Rect { hw, hh } => hw.times(hw).plus(hh.times(hh)).divn(3),
        }
    }

    /// Radius of a circle around the pose position covering the shape.
    pub fn bounding_radius(&self) -> (r: Fx)
        ensures
            r@ == shape_bound_radius(self@),
    {
        match self.shape {
            ColliderShape::Circle { r } => r,
            ColliderShape::Rect { hw, hh } => {
                crate::vec2::Vec2::new(hw, hh).length().plus(Fx::from_raw(1))
            },
        }
    }
}

} // verus!
