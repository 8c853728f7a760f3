//! Plane vectors, rotations and poses over fixed-point scalars.
//!
//! Orientation is carried as a rotor: the cosine/sine pair of the turn
//! angle.  Rotating a vector is then pure fixed-point arithmetic, and a
//! pose advanced by a small turn stays exact in the model: every method
//! states the arithmetic it performs over the ghost mirror types below.

use vstd::prelude::*;

use crate::fx::{
    fx_add, fx_div, fx_divn, fx_hypot, fx_mul, fx_neg, fx_ok, fx_sub, isqrt_u128, Fx, FX_MAX,
    SCALE,
};

verus! {

/// Ghost mirror of a plane vector: raw counts as mathematical integers.
pub ghost struct V2i {
    pub x: int,
    pub y: int,
}

/// Ghost mirror of a rotor: cosine and sine as raw counts.
pub ghost struct Rot2i {
    pub c: int,
    pub s: int,
}

/// Ghost mirror of a pose.
pub ghost struct PoseI {
    pub pos: V2i,
    pub rot: Rot2i,
}

/// Componentwise saturating addition.
pub open spec fn v2_add(a: V2i, b: V2i) -> V2i {
    V2i { x: fx_add(a.x, b.x), y: fx_add(a.y, b.y) }
}

/// Componentwise saturating subtraction.
pub open spec fn v2_sub(a: V2i, b: V2i) -> V2i {
    V2i { x: fx_sub(a.x, b.x), y: fx_sub(a.y, b.y) }
}

/// Exact negation.
pub open spec fn v2_neg(a: V2i) -> V2i {
    V2i { x: fx_neg(a.x), y: fx_neg(a.y) }
}

/// Scale by a scalar.
pub open spec fn v2_scale(a: V2i, s: int) -> V2i {
    V2i { x: fx_mul(a.x, s), y: fx_mul(a.y, s) }
}

/// Dot product.
pub open spec fn v2_dot(a: V2i, b: V2i) -> int {
    fx_add(fx_mul(a.x, b.x), fx_mul(a.y, b.y))
}

/// Perpendicular dot product: the plane cross product `a.x b.y - b.x a.y`.
pub open spec fn v2_cross(a: V2i, b: V2i) -> int {
    fx_sub(fx_mul(a.x, b.y), fx_mul(b.x, a.y))
}

/// Euclidean length, rounded down to the raw grid.
pub open spec fn v2_len(a: V2i) -> int {
    fx_hypot(a.x, a.y)
}

/// Apply a rotor to a vector.
pub open spec fn rot_apply(r: Rot2i, v: V2i) -> V2i {
    V2i {
        x: fx_sub(fx_mul(r.c, v.x), fx_mul(r.s, v.y)),
        y: fx_add(fx_mul(r.s, v.x), fx_mul(r.c, v.y)),
    }
}

/// Apply the inverse of a rotor (rotate by the opposite turn).
pub open spec fn rot_unapply(r: Rot2i, v: V2i) -> V2i {
    V2i {
        x: fx_add(fx_mul(r.c, v.x), fx_mul(r.s, v.y)),
        y: fx_sub(fx_mul(r.c, v.y), fx_mul(r.s, v.x)),
    }
}

/// Compose two rotors: turn by `a`, then by `b`.
pub open spec fn rot_compose(a: Rot2i, b: Rot2i) -> Rot2i {
    Rot2i {
        c: fx_sub(fx_mul(a.c, b.c), fx_mul(a.s, b.s)),
        s: fx_add(fx_mul(a.s, b.c), fx_mul(a.c, b.s)),
    }
}

/// The rotor of a small turn angle, to second order:
/// cosine `1 - angle^2 / 2`, sine `angle`.
pub open spec fn rot_small(angle: int) -> Rot2i {
    Rot2i { c: fx_sub(SCALE as int, fx_divn(fx_mul(angle, angle), 2)), s: angle }
}

/// A plane vector of fixed-point scalars.
#[derive(Clone, Copy, Debug, PartialEq, Eq, Structural)]
pub struct Vec2 {
    pub x: Fx,
    pub y: Fx,
}

impl View for Vec2 {
    type V = V2i;

    open spec fn view(&self) -> V2i {
        V2i { x: self.x@, y: self.y@ }
    }
}

impl Vec2 {
    /// The zero vector.
    pub fn zero() -> (r: Vec2)
        ensures
            r@ == (V2i { x: 0, y: 0 }),
    {
        Vec2 { x: Fx::zero(), y: Fx::zero() }
    }

    /// Build a vector from its components.
    pub fn new(x: Fx, y: Fx) -> (r: Vec2)
        ensures
            r@ == (V2i { x: x@, y: y@ }),
    {
        Vec2 { x, y }
    }

    /// Componentwise saturating addition.
    pub fn plus(self, o: Vec2) -> (r: Vec2)
        ensures
            r@ == v2_add(self@, o@),
    {
        Vec2 { x: self.x.plus(o.x), y: self.y.plus(o.y) }
    }

    /// Componentwise saturating subtraction.
    pub fn minus(self, o: Vec2) -> (r: Vec2)
        ensures
            r@ == v2_sub(self@, o@),
    {
        Vec2 { x: self.x.minus(o.x), y: self.y.minus(o.y) }
    }

    /// Exact negation.
    pub fn neg(self) -> (r: Vec2)
        ensures
            r@ == v2_neg(self@),
    {
        Vec2 { x: self.x.neg(), y: self.y.neg() }
    }

    /// Scale by a scalar.
    pub fn scale(self, s: Fx) -> (r: Vec2)
        ensures
            r@ == v2_scale(self@, s@),
    {
        Vec2 { x: self.x.times(s), y: self.y.times(s) }
    }

    /// Dot product.
    pub fn dot(self, o: Vec2) -> (r: Fx)
        ensures
            r@ == v2_dot(self@, o@),
    {
        self.x.times(o.x).plus(self.y.times(o.y))
    }

    /// Perpendicular dot product (plane cross product).
    pub fn cross(self, o: Vec2) -> (r: Fx)
        ensures
            r@ == v2_cross(self@, o@),
    {
        self.x.times(o.y).minus(o.x.times(self.y))
    }

    /// Euclidean length, rounded down to the raw grid.
    pub fn length(self) -> (r: Fx)
        ensures
            r@ == v2_len(self@),
            r@ >= 0,
    {
        let xr: i64 = self.x.raw();
        let yr: i64 = self.y.raw();
        proof {
            lemma_fx_product_bounds(xr as int, yr as int);
        }
        let px: i128 = (xr as i128) * (xr as i128);
        let py: i128 = (yr as i128) * (yr as i128);
        let s: u128 = (px + py) as u128;
        let root: u128 = isqrt_u128(s);
        if root > FX_MAX as u128 {
            Fx::from_raw(FX_MAX)
        } else {
            Fx::from_raw(root as i64)
        }
    }

    /// Divide both components by a scalar.
    pub fn div_scalar(self, s: Fx) -> (r: Vec2)
        requires
            s@ != 0,
        ensures
            r@ == (V2i { x: fx_div(self@.x, s@), y: fx_div(self@.y, s@) }),
    {
        Vec2 { x: self.x.over(s), y: self.y.over(s) }
    }
}

/// Squares of representable raw counts fit the wide machine word, and
/// their sum is non-negative.
proof fn lemma_fx_product_bounds(x: int, y: int)
    requires
        fx_ok(x),
        fx_ok(y),
    ensures
        0 <= x * x <= i128::MAX as int,
        0 <= y * y <= i128::MAX as int,
        x * x + y * y <= i128::MAX as int,
{
    assert(0 <= x * x && x * x <= 1_000_000_000_000_000_000_000_000_000_000) by (nonlinear_arith)
        requires
            -1_000_000_000_000_000 <= x <= 1_000_000_000_000_000,
    ;
    assert(0 <= y * y && y * y <= 1_000_000_000_000_000_000_000_000_000_000) by (nonlinear_arith)
        requires
            -1_000_000_000_000_000 <= y <= 1_000_000_000_000_000,
    ;
}

/// A rotor: the cosine and sine of a turn angle.
#[derive(Clone, Copy, Debug, PartialEq, Eq, Structural)]
pub struct Rotor {
    pub c: Fx,
    pub s: Fx,
}

impl View for Rotor {
    type V = Rot2i;

    open spec fn view(&self) -> Rot2i {
        Rot2i { c: self.c@, s: self.s@ }
    }
}

impl Rotor {
    /// The rotor of a zero turn.
    pub fn identity() -> (r: Rotor)
        ensures
            r@ == (Rot2i { c: SCALE as int, s: 0 }),
    {
        Rotor { c: Fx::one(), s: Fx::zero() }
    }

    /// Build a rotor from a cosine/sine pair.
    pub fn new(c: Fx, s: Fx) -> (r: Rotor)
        ensures
            r@ == (Rot2i { c: c@, s: s@ }),
    {
        Rotor { c, s }
    }

    /// Rotate a vector by this rotor.
    pub fn rotate(self, v: Vec2) -> (r: Vec2)
        ensures
            r@ == rot_apply(self@, v@),
    {
        Vec2 {
            x: self.c.times(v.x).minus(self.s.times(v.y)),
            y: self.s.times(v.x).plus(self.c.times(v.y)),
        }
    }

    /// Rotate a vector by the opposite of this rotor.
    pub fn inv_rotate(self, v: Vec2) -> (r: Vec2)
        ensures
            r@ == rot_unapply(self@, v@),
    {
        Vec2 {
            x: self.c.times(v.x).plus(self.s.times(v.y)),
            y: self.c.times(v.y).minus(self.s.times(v.x)),
        }
    }

    /// Compose with another rotor: turn by `self`, then by `o`.
    pub fn compose(self, o: Rotor) -> (r: Rotor)
        ensures
            r@ == rot_compose(self@, o@),
    {
        Rotor {
            c: self.c.times(o.c).minus(self.s.times(o.s)),
            s: self.s.times(o.c).plus(self.c.times(o.s)),
        }
    }

    /// The rotor of a small turn angle, to second order.
    pub fn from_small_angle(angle: Fx) -> (r: Rotor)
        ensures
            r@ == rot_small(angle@),
    {
        Rotor { c: Fx::one().minus(angle.times(angle).divn(2)), s: angle }
    }
}

/// Position and orientation of an object in the plane.
#[derive(Clone, Copy, Debug, PartialEq, Eq, Structural)]
pub struct Pose {
    pub pos: Vec2,
    pub rot: Rotor,
}

impl View for Pose {
    type V = PoseI;

    open spec fn view(&self) -> PoseI {
        PoseI { pos: self.pos@, rot: self.rot@ }
    }
}

impl Pose {
    /// A pose at a position, with no turn.
    pub fn new(pos: Vec2) -> (r: Pose)
        ensures
            r@.pos == pos@,
            r@.rot == (Rot2i { c: SCALE as int, s: 0 }),
    {
        Pose { pos, rot: Rotor::identity() }
    }

    /// A pose with an explicit orientation.
    pub fn with_rotation(pos: Vec2, rot: Rotor) -> (r: Pose)
        ensures
            r@ == (PoseI { pos: pos@, rot: rot@ }),
    {
        Pose { pos, rot }
    }

    /// The position part of the pose.
    pub fn get_translation(self) -> (r: Vec2)
        ensures
            r@ == self@.pos,
    {
        self.pos
    }

    /// The pose moved by an offset, orientation kept.
    pub fn translated_by(self, d: Vec2) -> (r: Pose)
        ensures
            r@.pos == v2_add(self@.pos, d@),
            r@.rot == self@.rot,
    {
        Pose { pos: self.pos.plus(d), rot: self.rot }
    }

    /// The pose turned by a rotor, position kept.
    pub fn rotated_by(self, turn: Rotor) -> (r: Pose)
        ensures
            r@.pos == self@.pos,
            r@.rot == rot_compose(self@.rot, turn@),
    {
        Pose { pos: self.pos, rot: self.rot.compose(turn) }
    }
}

} // verus!
