//! Narrow phase: exact intersection tests producing contact manifolds.
//!
//! `intersection_check` is a pure function of two collidable objects.
//! It returns no contact when the shapes do not overlap (exact touching
//! counts as not colliding), otherwise a contact whose `depth` is the
//! separation distance along `normal`, whose `normal` points from the
//! first object toward the second, and whose manifold holds one or two
//! world-space points on the surface of at least one shape.
//!
//! The test canonicalizes the pair by id before dispatching on the
//! shapes, so swapping the arguments gives the same verdict, the same
//! depth, and the exactly negated normal — the symmetry law below.
//!
//! Degenerate results are still defined: two concentric circles, or a
//! zero distance from a clamp point, fall back to the positive x axis
//! as the separation direction.

use vstd::prelude::*;

use crate::broadphase::CollidableI;
use crate::broadphase::Collidable;
use crate::collider::{shape_wf, ColliderShape, ShapeI};
use crate::fx::{fx_abs, fx_add, fx_clamp, fx_div, fx_mul, fx_neg, fx_sub, Fx, SCALE};
use crate::vec2::{
    rot_apply, rot_unapply, v2_add, v2_dot, v2_len, v2_neg, v2_scale, v2_sub, Pose, PoseI, Rot2i,
    Rotor, V2i, Vec2,
};

verus! {

/// Ghost mirror of a contact.
pub ghost struct ContactI {
    pub normal: V2i,
    pub depth: int,
    pub manifold: Seq<V2i>,
}

/// One or two world-space contact points.
#[derive(Clone, Copy, Debug)]
pub struct Manifold {
    pub p0: Vec2,
    pub p1: Option<Vec2>,
}

impl View for Manifold {
    type V = Seq<V2i>;

    open spec fn view(&self) -> Seq<V2i> {
        match self.p1 {
            Some(q) => seq![self.p0@, q@],
            None => seq![self.p0@],
        }
    }
}

impl Manifold {
    /// A single-point manifold.
    pub fn one(p: Vec2) -> (r: Manifold)
        ensures
            r@ == seq![p@],
    {
        Manifold { p0: p, p1: None }
    }

    /// A two-point manifold.
    pub fn two(p: Vec2, q: Vec2) -> (r: Manifold)
        ensures
            r@ == seq![p@, q@],
    {
        Manifold { p0: p, p1: Some(q) }
    }

    /// How many points the manifold holds (one or two).
    pub fn len(&self) -> (r: usize)
        ensures
            r as int == self@.len(),
            1 <= r <= 2,
    {
        match self.p1 {
            Some(_) => 2,
            None => 1,
        }
    }

    /// The point at an index.
    pub fn point(&self, k: usize) -> (r: Vec2)
        requires
            k < self@.len(),
        ensures
            r@ == self@[k as int],
    {
        if k == 0 {
            self.p0
        } else {
            match self.p1 {
                Some(q) => q,
                None => self.p0,  // unreachable under the precondition
            }
        }
    }

    /// Every point moved by the opposite of an offset.
    pub fn offset_back(self, d: Vec2) -> (r: Manifold)
        ensures
            r@ == self@.map_values(|p: V2i| v2_sub(p, d@)),
    {
        let r = match self.p1 {
            Some(q) => Manifold { p0: self.p0.minus(d), p1: Some(q.minus(d)) },
            None => Manifold { p0: self.p0.minus(d), p1: None },
        };
        proof {
            assert(r@ =~= self@.map_values(|p: V2i| v2_sub(p, d@)));
        }
        r
    }
}

/// A contact between two overlapping shapes.
#[derive(Clone, Copy, Debug)]
pub struct Contact {
    /// Unit-length separation direction, from the first object toward
    /// the second.
    pub normal: Vec2,
    /// Minimum translation distance along `normal` that separates the
    /// shapes; positive while they overlap.
    pub depth: Fx,
    /// One or two world-space contact points.
    pub manifold: Manifold,
}

impl View for Contact {
    type V = ContactI;

    open spec fn view(&self) -> ContactI {
        ContactI { normal: self.normal@, depth: self.depth@, manifold: self.manifold@ }
    }
}

/// The same contact seen from the other object: normal negated.
pub open spec fn flip_contact(c: Option<ContactI>) -> Option<ContactI> {
    match c {
        Some(c) => Some(
            ContactI { normal: v2_neg(c.normal), depth: c.depth, manifold: c.manifold },
        ),
        None => None,
    }
}

/// Circle against circle, first centered at `p1`.
pub open spec fn circle_circle_spec(p1: V2i, r1: int, p2: V2i, r2: int) -> Option<ContactI> {
    let d = v2_sub(p2, p1);
    let dist = v2_len(d);
    let rsum = fx_add(r1, r2);
    if dist >= rsum {
        None
    } else {
        let n = if dist == 0 {
            V2i { x: SCALE as int, y: 0 }
        } else {
            V2i { x: fx_div(d.x, dist), y: fx_div(d.y, dist) }
        };
        Some(
            ContactI {
                normal: n,
                depth: fx_sub(rsum, dist),
                manifold: seq![v2_add(p1, v2_scale(n, r1))],
            },
        )
    }
}

/// Circle centered at `c` against a rectangle with pose `rp` and
/// half-extents `hw`, `hh`; the normal points from the circle toward
/// the rectangle.
pub open spec fn circle_rect_spec(c: V2i, r: int, rp: PoseI, hw: int, hh: int) -> Option<
    ContactI,
> {
    let local = rot_unapply(rp.rot, v2_sub(c, rp.pos));
    let cl = V2i { x: fx_clamp(local.x, -hw, hw), y: fx_clamp(local.y, -hh, hh) };
    if cl == local {
        // center inside the rectangle: separate along the closest face
        let px = fx_sub(hw, fx_abs(local.x));
        let py = fx_sub(hh, fx_abs(local.y));
        let n_local = if px <= py {
            V2i { x: if local.x >= 0 { -(SCALE as int) } else { SCALE as int }, y: 0 }
        } else {
            V2i { x: 0, y: if local.y >= 0 { -(SCALE as int) } else { SCALE as int } }
        };
        let face = if px <= py {
            V2i { x: if local.x >= 0 { hw } else { -hw }, y: local.y }
        } else {
            V2i { x: local.x, y: if local.y >= 0 { hh } else { -hh } }
        };
        Some(
            ContactI {
                normal: rot_apply(rp.rot, n_local),
                depth: fx_add(r, if px <= py { px } else { py }),
                manifold: seq![v2_add(rp.pos, rot_apply(rp.rot, face))],
            },
        )
    } else {
        let delta = v2_sub(local, cl);
        let dist = v2_len(delta);
        if dist >= r {
            None
        } else {
            let n_local = if dist == 0 {
                V2i { x: SCALE as int, y: 0 }
            } else {
                V2i { x: fx_div(fx_neg(delta.x), dist), y: fx_div(fx_neg(delta.y), dist) }
            };
            Some(
                ContactI {
                    normal: rot_apply(rp.rot, n_local),
                    depth: fx_sub(r, dist),
                    manifold: seq![v2_add(rp.pos, rot_apply(rp.rot, cl))],
                },
            )
        }
    }
}

/// The local x axis of a rotor, as a world vector.
pub open spec fn axis_u(r: Rot2i) -> V2i {
    V2i { x: r.c, y: r.s }
}

/// The local y axis of a rotor, as a world vector.
pub open spec fn axis_v(r: Rot2i) -> V2i {
    V2i { x: fx_neg(r.s), y: r.c }
}

/// Projection radius of a box with axes `u`, `v` and half-extents
/// `hw`, `hh` onto a separation axis.
pub open spec fn proj_radius(axis: V2i, u: V2i, v: V2i, hw: int, hh: int) -> int {
    fx_add(fx_mul(hw, fx_abs(v2_dot(axis, u))), fx_mul(hh, fx_abs(v2_dot(axis, v))))
}

/// Overlap of two boxes along one axis: the sum of their projection
/// radii minus the projected center distance.
pub open spec fn overlap_on(
    axis: V2i,
    t: V2i,
    ua: V2i,
    va: V2i,
    hwa: int,
    hha: int,
    ub: V2i,
    vb: V2i,
    hwb: int,
    hhb: int,
) -> int {
    fx_sub(
        fx_add(proj_radius(axis, ua, va, hwa, hha), proj_radius(axis, ub, vb, hwb, hhb)),
        fx_abs(v2_dot(t, axis)),
    )
}

/// A corner of a box: the position offset by signed half-extents along
/// the box axes.
pub open spec fn box_corner(pos: V2i, u: V2i, v: V2i, sw: int, sh: int) -> V2i {
    v2_add(pos, v2_add(v2_scale(u, sw), v2_scale(v, sh)))
}

/// Of four corners, the one or two that project least along `dir` from
/// `origin` — the deepest points toward the reference box.
pub open spec fn pick_deepest(cs: Seq<V2i>, ds: Seq<int>) -> Seq<V2i>
    recommends
        cs.len() == 4,
        ds.len() == 4,
{
    let m = min4(ds[0], ds[1], ds[2], ds[3]);
    let s0: Seq<V2i> = if ds[0] == m {
        seq![cs[0]]
    } else {
        Seq::empty()
    };
    let s1: Seq<V2i> = if ds[1] == m {
        s0 + seq![cs[1]]
    } else {
        s0
    };
    let s2: Seq<V2i> = if ds[2] == m {
        s1 + seq![cs[2]]
    } else {
        s1
    };
    let s3: Seq<V2i> = if ds[3] == m {
        s2 + seq![cs[3]]
    } else {
        s2
    };
    if s3.len() <= 2 {
        s3
    } else {
        s3.subrange(0, 2)
    }
}

/// Least of four values.
pub open spec fn min4(a: int, b: int, c: int, d: int) -> int {
    let m1 = if b < a {
        b
    } else {
        a
    };
    let m2 = if c < m1 {
        c
    } else {
        m1
    };
    if d < m2 {
        d
    } else {
        m2
    }
}

/// The deepest corners of the box at `pose` relative to `origin` along
/// `dir`, in the fixed corner order (+,+), (+,-), (-,+), (-,-).
pub open spec fn deep_corners(pose: PoseI, hw: int, hh: int, origin: V2i, dir: V2i) -> Seq<V2i> {
    let u = axis_u(pose.rot);
    let v = axis_v(pose.rot);
    let c0 = box_corner(pose.pos, u, v, hw, hh);
    let c1 = box_corner(pose.pos, u, v, hw, fx_neg(hh));
    let c2 = box_corner(pose.pos, u, v, fx_neg(hw), hh);
    let c3 = box_corner(pose.pos, u, v, fx_neg(hw), fx_neg(hh));
    let ds = seq![
        v2_dot(v2_sub(c0, origin), dir),
        v2_dot(v2_sub(c1, origin), dir),
        v2_dot(v2_sub(c2, origin), dir),
        v2_dot(v2_sub(c3, origin), dir),
    ];
    pick_deepest(seq![c0, c1, c2, c3], ds)
}

/// Rectangle against rectangle by separating axes: the four box axes
/// are tested; the least overlap gives normal and depth, and the
/// deepest corners of the other box give the manifold.
pub open spec fn rect_rect_spec(
    pa: PoseI,
    hwa: int,
    hha: int,
    pb: PoseI,
    hwb: int,
    hhb: int,
) -> Option<ContactI> {
    let ua = axis_u(pa.rot);
    let va = axis_v(pa.rot);
    let ub = axis_u(pb.rot);
    let vb = axis_v(pb.rot);
    let t = v2_sub(pb.pos, pa.pos);
    let o0 = overlap_on(ua, t, ua, va, hwa, hha, ub, vb, hwb, hhb);
    let o1 = overlap_on(va, t, ua, va, hwa, hha, ub, vb, hwb, hhb);
    let o2 = overlap_on(ub, t, ua, va, hwa, hha, ub, vb, hwb, hhb);
    let o3 = overlap_on(vb, t, ua, va, hwa, hha, ub, vb, hwb, hhb);
    if o0 <= 0 || o1 <= 0 || o2 <= 0 || o3 <= 0 {
        None
    } else {
        let k1 = if o1 < o0 {
            1int
        } else {
            0int
        };
        let m1 = if o1 < o0 {
            o1
        } else {
            o0
        };
        let k2 = if o2 < m1 {
            2int
        } else {
            k1
        };
        let m2 = if o2 < m1 {
            o2
        } else {
            m1
        };
        let k3 = if o3 < m2 {
            3int
        } else {
            k2
        };
        let m3 = if o3 < m2 {
            o3
        } else {
            m2
        };
        let axis = if k3 == 0 {
            ua
        } else if k3 == 1 {
            va
        } else if k3 == 2 {
            ub
        } else {
            vb
        };
        let n = if v2_dot(t, axis) >= 0 {
            axis
        } else {
            v2_neg(axis)
        };
        let manifold = if k3 <= 1 {
            deep_corners(pb, hwb, hhb, pa.pos, n)
        } else {
            deep_corners(pa, hwa, hha, pb.pos, v2_neg(n))
        };
        Some(ContactI { normal: n, depth: m3, manifold })
    }
}

/// Dispatch on the shape pair; the normal points from `a` toward `b`.
pub open spec fn contact_base(a: CollidableI, b: CollidableI) -> Option<ContactI> {
    match (a.shape, b.shape) {
        (ShapeI::Circle { r: r1 }, ShapeI::Circle { r: r2 }) => circle_circle_spec(
            a.pose.pos,
            r1,
            b.pose.pos,
            r2,
        ),
        (ShapeI::Circle { r }, ShapeI::Rect { hw, hh }) => circle_rect_spec(
            a.pose.pos,
            r,
            b.pose,
            hw,
            hh,
        ),
        (ShapeI::Rect { hw, hh }, ShapeI::Circle { r }) => flip_contact(
            circle_rect_spec(b.pose.pos, r, a.pose, hw, hh),
        ),
        (ShapeI::Rect { hw: hwa, hh: hha }, ShapeI::Rect { hw: hwb, hh: hhb }) => rect_rect_spec(
            a.pose,
            hwa,
            hha,
            b.pose,
            hwb,
            hhb,
        ),
    }
}

/// The contact of a pair, canonicalized by id so that the result of a
/// swapped pair is the flipped contact.
pub open spec fn contact_of(a: CollidableI, b: CollidableI) -> Option<ContactI> {
    if a.id <= b.id {
        contact_base(a, b)
    } else {
        flip_contact(contact_base(b, a))
    }
}

/// Narrow-phase symmetry: swapping the two objects of a pair keeps the
/// collision verdict and the depth and negates the normal exactly.
pub proof fn lemma_intersection_symmetric(a: CollidableI, b: CollidableI)
    requires
        a.id != b.id,
    ensures
        (contact_of(a, b) is Some) <==> (contact_of(b, a) is Some),
        contact_of(a, b) is Some ==> contact_of(b, a)->Some_0.normal == v2_neg(
            contact_of(a, b)->Some_0.normal,
        ),
        contact_of(a, b) is Some ==> contact_of(b, a)->Some_0.depth == contact_of(
            a,
            b,
        )->Some_0.depth,
{
}

// ------------------------------------------------------------------
// Executable intersection tests
// ------------------------------------------------------------------

/// Negate a contact's normal (the same contact seen from the other
/// side).
fn flip_exec(c: Option<Contact>) -> (r: Option<Contact>)
    ensures
        match r {
            Some(rc) => flip_contact(
                match c {
                    Some(cc) => Some(cc@),
                    None => None,
                },
            ) == Some(rc@),
            None => c is None,
        },
{
    match c {
        Some(c) => Some(Contact { normal: c.normal.neg(), depth: c.depth, manifold: c.manifold }),
        None => None,
    }
}

/// Circle-circle intersection.
fn circle_circle(p1: Vec2, r1: Fx, p2: Vec2, r2: Fx) -> (r: Option<Contact>)
    ensures
        match r {
            Some(c) => circle_circle_spec(p1@, r1@, p2@, r2@) == Some(c@),
            None => circle_circle_spec(p1@, r1@, p2@, r2@) is None,
        },
{
    let d = p2.minus(p1);
    let dist = d.length();
    let rsum = r1.plus(r2);
    if dist.raw() >= rsum.raw() {
        None
    } else {
        let n = if dist.raw() == 0 {
            Vec2::new(Fx::one(), Fx::zero())
        } else {
            d.div_scalar(dist)
        };
        Some(
            Contact {
                normal: n,
                depth: rsum.minus(dist),
                manifold: Manifold::one(p1.plus(n.scale(r1))),
            },
        )
    }
}

/// Circle-rectangle intersection; the normal points from the circle
/// toward the rectangle.
fn circle_rect(c: Vec2, r: Fx, rp: Pose, hw: Fx, hh: Fx) -> (res: Option<Contact>)
    requires
        hw@ > 0,
        hh@ > 0,
    ensures
        match res {
            Some(ct) => circle_rect_spec(c@, r@, rp@, hw@, hh@) == Some(ct@),
            None => circle_rect_spec(c@, r@, rp@, hw@, hh@) is None,
        },
{
    let local = rp.rot.inv_rotate(c.minus(rp.pos));
    let clx = local.x.clamp_to(hw.neg(), hw);
    let cly = local.y.clamp_to(hh.neg(), hh);
    if clx.raw() == local.x.raw() && cly.raw() == local.y.raw() {
        proof {
            assert(Vec2 { x: clx, y: cly }@ == local@);
        }
        let px = hw.minus(local.x.abs_val());
        let py = hh.minus(local.y.abs_val());
        let n_local = if px.raw() <= py.raw() {
            if local.x.raw() >= 0 {
                Vec2::new(Fx::one().neg(), Fx::zero())
            } else {
                Vec2::new(Fx::one(), Fx::zero())
            }
        } else {
            if local.y.raw() >= 0 {
                Vec2::new(Fx::zero(), Fx::one().neg())
            } else {
                Vec2::new(Fx::zero(), Fx::one())
            }
        };
        let face = if px.raw() <= py.raw() {
            Vec2::new(if local.x.raw() >= 0 { hw } else { hw.neg() }, local.y)
        } else {
            Vec2::new(local.x, if local.y.raw() >= 0 { hh } else { hh.neg() })
        };
        let depth = r.plus(if px.raw() <= py.raw() { px } else { py });
        Some(
            Contact {
                normal: rp.rot.rotate(n_local),
                depth,
                manifold: Manifold::one(rp.pos.plus(rp.rot.rotate(face))),
            },
        )
    } else {
        let cl = Vec2::new(clx, cly);
        let delta = local.minus(cl);
        let dist = delta.length();
        if dist.raw() >= r.raw() {
            None
        } else {
            let n_local = if dist.raw() == 0 {
                Vec2::new(Fx::one(), Fx::zero())
            } else {
                delta.neg().div_scalar(dist)
            };
            Some(
                Contact {
                    normal: rp.rot.rotate(n_local),
                    depth: r.minus(dist),
                    manifold: Manifold::one(rp.pos.plus(rp.rot.rotate(cl))),
                },
            )
        }
    }
}

/// The world axes of a box at a pose.
fn box_axes(rot: Rotor) -> (r: (Vec2, Vec2))
    ensures
        r.0@ == axis_u(rot@),
        r.1@ == axis_v(rot@),
{
    (Vec2::new(rot.c, rot.s), Vec2::new(rot.s.neg(), rot.c))
}

/// Projection radius of a box onto an axis.
fn proj_radius_exec(axis: Vec2, u: Vec2, v: Vec2, hw: Fx, hh: Fx) -> (r: Fx)
    ensures
        r@ == proj_radius(axis@, u@, v@, hw@, hh@),
{
    hw.times(axis.dot(u).abs_val()).plus(hh.times(axis.dot(v).abs_val()))
}

/// The one or two corners of the box at `pose` that project least
/// along `dir` from `origin`.
fn deep_corners_exec(pose: Pose, hw: Fx, hh: Fx, origin: Vec2, dir: Vec2) -> (r: Manifold)
    ensures
        r@ == deep_corners(pose@, hw@, hh@, origin@, dir@),
{
    let (u, v) = box_axes(pose.rot);
    let c0 = pose.pos.plus(u.scale(hw).plus(v.scale(hh)));
    let c1 = pose.pos.plus(u.scale(hw).plus(v.scale(hh.neg())));
    let c2 = pose.pos.plus(u.scale(hw.neg()).plus(v.scale(hh)));
    let c3 = pose.pos.plus(u.scale(hw.neg()).plus(v.scale(hh.neg())));
    let d0 = c0.minus(origin).dot(dir);
    let d1 = c1.minus(origin).dot(dir);
    let d2 = c2.minus(origin).dot(dir);
    let d3 = c3.minus(origin).dot(dir);
    let m1 = if d1.raw() < d0.raw() {
        d1
    } else {
        d0
    };
    let m2 = if d2.raw() < m1.raw() {
        d2
    } else {
        m1
    };
    let m = if d3.raw() < m2.raw() {
        d3
    } else {
        m2
    };
    proof {
        assert(m@ == min4(
            v2_dot(v2_sub(c0@, origin@), dir@),
            v2_dot(v2_sub(c1@, origin@), dir@),
            v2_dot(v2_sub(c2@, origin@), dir@),
            v2_dot(v2_sub(c3@, origin@), dir@),
        ));
    }
    let mut first: Option<Vec2> = None;
    let mut second: Option<Vec2> = None;
    if d0.raw() == m.raw() {
        first = Some(c0);
    }
    if d1.raw() == m.raw() {
        if first.is_none() {
            first = Some(c1);
        } else if second.is_none() {
            second = Some(c1);
        }
    }
    if d2.raw() == m.raw() {
        if first.is_none() {
            first = Some(c2);
        } else if second.is_none() {
            second = Some(c2);
        }
    }
    if d3.raw() == m.raw() {
        if first.is_none() {
            first = Some(c3);
        } else if second.is_none() {
            second = Some(c3);
        }
    }
    let r = match (first, second) {
        (Some(p), Some(q)) => Manifold::two(p, q),
        (Some(p), None) => Manifold::one(p),
        (None, _) => {
            proof {
                assert(false);  // the least of the four values is attained
            }
            Manifold::one(origin)
        },
    };
    proof {
        assert(r@ =~= deep_corners(pose@, hw@, hh@, origin@, dir@));
    }
    r
}

/// Rectangle-rectangle intersection by separating axes.
fn rect_rect(pa: Pose, hwa: Fx, hha: Fx, pb: Pose, hwb: Fx, hhb: Fx) -> (res: Option<Contact>)
    ensures
        match res {
            Some(ct) => rect_rect_spec(pa@, hwa@, hha@, pb@, hwb@, hhb@) == Some(ct@),
            None => rect_rect_spec(pa@, hwa@, hha@, pb@, hwb@, hhb@) is None,
        },
{
    let (ua, va) = box_axes(pa.rot);
    let (ub, vb) = box_axes(pb.rot);
    let t = pb.pos.minus(pa.pos);
    let ra0 = proj_radius_exec(ua, ua, va, hwa, hha);
    let rb0 = proj_radius_exec(ua, ub, vb, hwb, hhb);
    let o0 = ra0.plus(rb0).minus(t.dot(ua).abs_val());
    let ra1 = proj_radius_exec(va, ua, va, hwa, hha);
    let rb1 = proj_radius_exec(va, ub, vb, hwb, hhb);
    let o1 = ra1.plus(rb1).minus(t.dot(va).abs_val());
    let ra2 = proj_radius_exec(ub, ua, va, hwa, hha);
    let rb2 = proj_radius_exec(ub, ub, vb, hwb, hhb);
    let o2 = ra2.plus(rb2).minus(t.dot(ub).abs_val());
    let ra3 = proj_radius_exec(vb, ua, va, hwa, hha);
    let rb3 = proj_radius_exec(vb, ub, vb, hwb, hhb);
    let o3 = ra3.plus(rb3).minus(t.dot(vb).abs_val());
    if o0.raw() <= 0 || o1.raw() <= 0 || o2.raw() <= 0 || o3.raw() <= 0 {
        None
    } else {
        let mut k: usize = 0;
        let mut m: Fx = o0;
        if o1.raw() < m.raw() {
            k = 1;
            m = o1;
        }
        if o2.raw() < m.raw() {
            k = 2;
            m = o2;
        }
        if o3.raw() < m.raw() {
            k = 3;
            m = o3;
        }
        let axis = if k == 0 {
            ua
        } else if k == 1 {
            va
        } else if k == 2 {
            ub
        } else {
            vb
        };
        let n = if t.dot(axis).raw() >= 0 {
            axis
        } else {
            axis.neg()
        };
        let manifold = if k <= 1 {
            deep_corners_exec(pb, hwb, hhb, pa.pos, n)
        } else {
            deep_corners_exec(pa, hwa, hha, pb.pos, n.neg())
        };
        Some(Contact { normal: n, depth: m, manifold })
    }
}

/// Dispatch on the shapes of a canonically ordered pair.
fn check_base(obj1: &Collidable, obj2: &Collidable) -> (r: Option<Contact>)
    ensures
        match r {
            Some(c) => contact_base(obj1@, obj2@) == Some(c@),
            None => contact_base(obj1@, obj2@) is None,
        },
{
    let s1 = *obj1.coll.shape();
    let s2 = *obj2.coll.shape();
    match (s1, s2) {
        (ColliderShape::Circle { r: r1 }, ColliderShape::Circle { r: r2 }) => circle_circle(
            obj1.tr.pos,
            r1,
            obj2.tr.pos,
            r2,
        ),
        (ColliderShape::Circle { r }, ColliderShape::Rect { hw, hh }) => circle_rect(
            obj1.tr.pos,
            r,
            obj2.tr,
            hw,
            hh,
        ),
        (ColliderShape::Rect { hw, hh }, ColliderShape::Circle { r }) => flip_exec(
            circle_rect(obj2.tr.pos, r, obj1.tr, hw, hh),
        ),
        (ColliderShape::Rect { hw: hwa, hh: hha }, ColliderShape::Rect { hw: hwb, hh: hhb }) => {
            rect_rect(obj1.tr, hwa, hha, obj2.tr, hwb, hhb)
        },
    }
}

/// Exact intersection test of two collidable objects.  No contact means
/// no overlap (touching shapes do not collide); a contact carries the
/// separation normal from `obj1` toward `obj2`, the penetration depth,
/// and the world-space manifold.
pub fn intersection_check(obj1: &Collidable, obj2: &Collidable) -> (r: Option<Contact>)
    ensures
        match r {
            Some(c) => contact_of(obj1@, obj2@) == Some(c@),
            None => contact_of(obj1@, obj2@) is None,
        },
{
    if obj1.id <= obj2.id {
        check_base(obj1, obj2)
    } else {
        flip_exec(check_base(obj2, obj1))
    }
}

} // verus!
