//! The collision solver: one simulation tick.
//!
//! `run_system` drives the integrator substep loop.  After every
//! substep that asks for derivatives it gathers the objects that carry
//! a collider, runs the broad phase, keeps the real contacts the narrow
//! phase confirms, applies the configured number of sequential-impulse
//! passes, pushes two symmetric collision events per contact, and
//! publishes the contact list for debug consumers.
//!
//! The impulse rule, per contact point: the relative velocity of the
//! two bodies at the point along the contact normal, if they approach,
//! divided by the sum of the four inverse mass and inertia terms, gives
//! the impulse magnitude; equal and opposite velocity changes follow,
//! each scaled by the body's own inverse mass and inertia.  A
//! separating point gets no impulse, and no restitution is applied:
//! resolution is fully inelastic at the velocity level.

use vstd::prelude::*;

use crate::body::RigidBody;
use crate::body::BodyI;
use crate::broadphase::{models, pairs_wf, BroadPhase, Collidable, CollidableI};
use crate::collider::{Collider, ShapeI};
use crate::fx::{
    fx_add, fx_div, fx_mul, fx_ok, fx_sub, lemma_fx_half_remainder, lemma_fx_mul_one,
    lemma_fx_mul_zero, lemma_tdiv_bound, sat64, tdiv, Fx, FX_MAX, SCALE,
};
use crate::integrator::{Integrator, IntegratorState, SemiImplicitEuler};
use crate::narrowphase::{contact_of, intersection_check, Contact, ContactI, Manifold};
use crate::vec2::{v2_add, v2_cross, v2_dot, v2_neg, v2_scale, v2_sub, Pose, PoseI, V2i, Vec2};

verus! {

/// Ghost mirror of one physics-enabled object.
pub ghost struct ObjectI {
    pub id: int,
    pub tr: PoseI,
    pub body: BodyI,
    pub coll: Option<ShapeI>,
}

/// One physics-enabled object as the solver sees it: an id, a pose, a
/// rigid body, and optionally a collider.  Objects without a collider
/// integrate but never collide.
#[derive(Clone, Copy, Debug)]
pub struct RigidBodyFilter {
    pub id: u64,
    pub tr: Pose,
    pub body: RigidBody,
    pub coll: Option<Collider>,
}

impl View for RigidBodyFilter {
    type V = ObjectI;

    open spec fn view(&self) -> ObjectI {
        ObjectI {
            id: self.id as int,
            tr: self.tr@,
            body: self.body@,
            coll: match self.coll {
                Some(c) => Some(c@),
                None => None,
            },
        }
    }
}

/// The ghost mirrors of the object slice.
pub open spec fn omodels(s: Seq<RigidBodyFilter>) -> Seq<ObjectI> {
    s.map_values(|o: RigidBodyFilter| o@)
}

/// All ids in the slice are distinct.
pub open spec fn ids_unique(s: Seq<RigidBodyFilter>) -> bool {
    forall|k1: int, k2: int| 0 <= k1 < k2 < s.len() ==> s[k1].id != s[k2].id
}

/// Ghost mirror of a collision event.
pub ghost struct EventI {
    pub source: int,
    pub other: int,
    pub normal: V2i,
    pub depth: int,
    pub manifold: Seq<V2i>,
}

/// A collision event: the contact as seen from `source`.  Two are
/// produced per colliding pair, one from each object's point of view.
#[derive(Clone, Copy, Debug)]
pub struct CollisionEvent {
    pub source: u64,
    pub other: u64,
    pub normal: Vec2,
    pub depth: Fx,
    pub manifold: Manifold,
}

impl View for CollisionEvent {
    type V = EventI;

    open spec fn view(&self) -> EventI {
        EventI {
            source: self.source as int,
            other: self.other as int,
            normal: self.normal@,
            depth: self.depth@,
            manifold: self.manifold@,
        }
    }
}

/// Ghost mirror of one confirmed contact between two objects.
pub ghost struct ContactEntryI {
    pub i1: int,
    pub i2: int,
    pub id1: int,
    pub id2: int,
    pub contact: ContactI,
}

/// One confirmed contact: the two participants (by id and by index
/// into the tick's object slice) and the narrow-phase contact.
#[derive(Clone, Copy, Debug)]
pub struct ContactEntry {
    pub i1: usize,
    pub i2: usize,
    pub id1: u64,
    pub id2: u64,
    pub contact: Contact,
}

impl View for ContactEntry {
    type V = ContactEntryI;

    open spec fn view(&self) -> ContactEntryI {
        ContactEntryI {
            i1: self.i1 as int,
            i2: self.i2 as int,
            id1: self.id1 as int,
            id2: self.id2 as int,
            contact: self.contact@,
        }
    }
}

/// The ghost mirrors of a contact list.
pub open spec fn centries(s: Seq<ContactEntry>) -> Seq<ContactEntryI> {
    s.map_values(|e: ContactEntry| e@)
}

/// A contact entry addresses two distinct objects of the slice.
pub open spec fn entry_wf(e: ContactEntryI, len: int) -> bool {
    &&& 0 <= e.i1 < len
    &&& 0 <= e.i2 < len
    &&& e.i1 != e.i2
}

/// The perpendicular-dot of a contact point's offset from a body's
/// position with the contact normal: the lever arm of the impulse.
pub open spec fn offset_cross_normal(o: ObjectI, n: V2i, p: V2i) -> int {
    v2_cross(v2_sub(p, o.tr.pos), n)
}

/// A body's velocity at a contact point along the contact normal: the
/// linear term plus the lever arm times the angular velocity.
pub open spec fn normal_vel(o: ObjectI, n: V2i, p: V2i) -> int {
    fx_add(v2_dot(o.body.vel.linear, n), fx_mul(offset_cross_normal(o, n, p), o.body.vel.angular))
}

/// Relative normal velocity of the pair at a point; positive while the
/// bodies approach (the normal points from the first toward the
/// second).
pub open spec fn rel_normal_vel(o1: ObjectI, o2: ObjectI, n: V2i, p: V2i) -> int {
    fx_sub(normal_vel(o1, n, p), normal_vel(o2, n, p))
}

/// Sum of the four inverse terms dividing the impulse magnitude.
pub open spec fn inv_sum(o1: ObjectI, o2: ObjectI) -> int {
    fx_add(fx_add(fx_add(o1.body.inv_mass, o1.body.inv_moi), o2.body.inv_mass), o2.body.inv_moi)
}

/// A body after an impulse of magnitude `j` along `n` with lever arm
/// `ocn`; `sign` is `1` for the second body and `-1` for the first.
pub open spec fn body_after_impulse(o: ObjectI, n: V2i, j: int, ocn: int, sign: int) -> ObjectI {
    let dv = v2_scale(n, fx_mul(o.body.inv_mass, j));
    let dw = fx_mul(fx_mul(o.body.inv_moi, j), ocn);
    ObjectI {
        body: BodyI {
            vel: crate::body::VelocityI {
                linear: if sign >= 0 {
                    v2_add(o.body.vel.linear, dv)
                } else {
                    v2_sub(o.body.vel.linear, dv)
                },
                angular: if sign >= 0 {
                    fx_add(o.body.vel.angular, dw)
                } else {
                    fx_sub(o.body.vel.angular, dw)
                },
            },
            ..o.body
        },
        ..o
    }
}

/// One sequential-impulse update at one contact point: no change when
/// the bodies already separate at the point or when both are immovable,
/// otherwise equal and opposite impulses on the two participants.
pub open spec fn resolve_point(s: Seq<ObjectI>, i1: int, i2: int, n: V2i, p: V2i) -> Seq<
    ObjectI,
> {
    if !(0 <= i1 < s.len() && 0 <= i2 < s.len() && i1 != i2) {
        s
    } else {
        let o1 = s[i1];
        let o2 = s[i2];
        let rel = rel_normal_vel(o1, o2, n, p);
        let denom = inv_sum(o1, o2);
        if rel < 0 || denom == 0 {
            s
        } else {
            let j = fx_div(rel, denom);
            s.update(i1, body_after_impulse(o1, n, j, offset_cross_normal(o1, n, p), -1)).update(
                i2,
                body_after_impulse(o2, n, j, offset_cross_normal(o2, n, p), 1),
            )
        }
    }
}

/// Impulse updates at every point of a manifold, in order.
pub open spec fn resolve_points(s: Seq<ObjectI>, i1: int, i2: int, n: V2i, pts: Seq<V2i>) -> Seq<
    ObjectI,
>
    decreases pts.len(),
{
    if pts.len() == 0 {
        s
    } else {
        resolve_points(resolve_point(s, i1, i2, n, pts[0]), i1, i2, n, pts.skip(1))
    }
}

/// One resolution of one confirmed contact.
pub open spec fn resolve_entry(s: Seq<ObjectI>, e: ContactEntryI) -> Seq<ObjectI> {
    resolve_points(s, e.i1, e.i2, e.contact.normal, e.contact.manifold)
}

/// One pass over the whole contact list, in order.
pub open spec fn resolve_pass(s: Seq<ObjectI>, cs: Seq<ContactEntryI>) -> Seq<ObjectI>
    decreases cs.len(),
{
    if cs.len() == 0 {
        s
    } else {
        resolve_pass(resolve_entry(s, cs[0]), cs.skip(1))
    }
}

/// `iterations` sequential-impulse passes over the contact list.
pub open spec fn resolve_iters(s: Seq<ObjectI>, cs: Seq<ContactEntryI>, iterations: nat) -> Seq<
    ObjectI,
>
    decreases iterations,
{
    if iterations == 0 {
        s
    } else {
        resolve_iters(resolve_pass(s, cs), cs, (iterations - 1) as nat)
    }
}

/// The two symmetric events of one contact: one from each point of
/// view.  The first, from the first participant's side, carries the
/// contact normal as the narrow phase reported it; the second carries
/// the negated normal and the manifold points offset by depth times
/// normal, so each event describes the contact from its `source`'s
/// reference frame.
pub open spec fn events_of(e: ContactEntryI) -> Seq<EventI> {
    seq![
        EventI {
            source: e.id1,
            other: e.id2,
            normal: e.contact.normal,
            depth: e.contact.depth,
            manifold: e.contact.manifold,
        },
        EventI {
            source: e.id2,
            other: e.id1,
            normal: v2_neg(e.contact.normal),
            depth: e.contact.depth,
            manifold: e.contact.manifold.map_values(
                |p: V2i| v2_sub(p, v2_scale(e.contact.normal, e.contact.depth)),
            ),
        },
    ]
}

/// The events of a whole contact list, two per contact, in order.
pub open spec fn all_events(cs: Seq<ContactEntryI>) -> Seq<EventI>
    decreases cs.len(),
{
    if cs.len() == 0 {
        Seq::empty()
    } else {
        events_of(cs[0]) + all_events(cs.skip(1))
    }
}

// ------------------------------------------------------------------
// The tick as one spec-level pipeline
// ------------------------------------------------------------------

/// All objects advanced by one substep of the session: each takes the
/// session's velocity and pose rule; ids, colliders and mass terms
/// stay.
pub open spec fn advance<I: Integrator>(g: I, s: Seq<ObjectI>) -> Seq<ObjectI> {
    Seq::new(
        s.len(),
        |k: int|
            ObjectI {
                id: s[k].id,
                tr: g.next_pose(s[k].tr, s[k].body),
                body: BodyI {
                    inv_mass: s[k].body.inv_mass,
                    inv_moi: s[k].body.inv_moi,
                    vel: g.next_vel(s[k].tr, s[k].body),
                },
                coll: s[k].coll,
            },
    )
}

/// The collider-bearing objects, in slice order, as the broad phase
/// sees them; objects without a collider never appear.
pub open spec fn collidables_of(s: Seq<ObjectI>) -> Seq<CollidableI>
    decreases s.len(),
{
    if s.len() == 0 {
        Seq::empty()
    } else {
        let rest = collidables_of(s.skip(1));
        match s[0].coll {
            Some(shape) => seq![CollidableI { id: s[0].id, pose: s[0].tr, shape }] + rest,
            None => rest,
        }
    }
}

/// The position of the object with this id in the slice.
pub open spec fn index_of_id(s: Seq<ObjectI>, id: int) -> int {
    choose|k: int| 0 <= k < s.len() && (#[trigger] s[k]).id == id
}

/// The contact list one substep confirms: one entry per candidate pair
/// whose shapes the narrow phase finds overlapping, in candidate order,
/// and nothing else; each entry addresses its participants by id and by
/// their position in the object slice.
pub open spec fn confirmed_contacts(
    s: Seq<ObjectI>,
    cs: Seq<CollidableI>,
    ps: Seq<(usize, usize)>,
) -> Seq<ContactEntryI>
    decreases ps.len(),
{
    if ps.len() == 0 {
        Seq::empty()
    } else {
        let rest = confirmed_contacts(s, cs, ps.skip(1));
        let a = ps[0].0 as int;
        let b = ps[0].1 as int;
        if 0 <= a && a < b && b < cs.len() && contact_of(cs[a], cs[b]) is Some {
            seq![
                ContactEntryI {
                    i1: index_of_id(s, cs[a].id),
                    i2: index_of_id(s, cs[b].id),
                    id1: cs[a].id,
                    id2: cs[b].id,
                    contact: contact_of(cs[a], cs[b])->Some_0,
                },
            ] + rest
        } else {
            rest
        }
    }
}

/// The whole tick, related to what it produces.  From session `g` on:
/// a session with no substeps left ends the tick at once, changing
/// nothing and publishing nothing; otherwise every object advances by
/// the session's step rule, the collider-bearing objects go through
/// broad and narrow phase, the confirmed contacts are resolved for
/// `iterations` passes and their events head the appended events, the
/// contact list is published, and the stepped session continues.
#[verifier::opaque]
pub open spec fn tick_from<I: Integrator, B: BroadPhase>(
    g: I,
    s: Seq<ObjectI>,
    iterations: nat,
    c0: Seq<ContactEntryI>,
    s_out: Seq<ObjectI>,
    ev_out: Seq<EventI>,
    c_out: Seq<ContactEntryI>,
    fuel: nat,
) -> bool
    decreases fuel,
{
    if g.substeps_left() == 0 {
        s_out == s && ev_out == Seq::<EventI>::empty() && c_out == c0
    } else if fuel == 0 {
        false
    } else {
        let advanced = advance(g, s);
        let cs = collidables_of(advanced);
        let contacts = confirmed_contacts(advanced, cs, B::pairs_spec(cs));
        let resolved = resolve_iters(advanced, contacts, iterations);
        let head = all_events(contacts);
        &&& head.len() <= ev_out.len()
        &&& ev_out.take(head.len() as int) == head
        &&& tick_from::<I, B>(
            g.stepped(),
            resolved,
            iterations,
            contacts,
            s_out,
            ev_out.skip(head.len() as int),
            c_out,
            (fuel - 1) as nat,
        )
    }
}

/// Fewer than two collidables admit no candidate pair, so a slice with
/// at most one collider-bearing object confirms no contact and its tick
/// appends no event.
pub proof fn lemma_lone_collidable_no_contacts(
    s: Seq<ObjectI>,
    cs: Seq<CollidableI>,
    ps: Seq<(usize, usize)>,
)
    requires
        cs.len() <= 1,
    ensures
        confirmed_contacts(s, cs, ps) == Seq::<ContactEntryI>::empty(),
        all_events(confirmed_contacts(s, cs, ps)) == Seq::<EventI>::empty(),
    decreases ps.len(),
{
    if ps.len() != 0 {
        lemma_lone_collidable_no_contacts(s, cs, ps.skip(1));
    }
}

/// Every collidable the pipeline hands to the phases is a
/// collider-bearing object of the slice: an object without a collider
/// can never reach a contact or an event.
pub proof fn lemma_collidables_bear_colliders(s: Seq<ObjectI>)
    ensures
        forall|k: int|
            0 <= k < collidables_of(s).len() ==> exists|j: int|
                0 <= j < s.len() && (#[trigger] s[j]).coll == Some(
                    (#[trigger] collidables_of(s)[k]).shape,
                ) && s[j].id == collidables_of(s)[k].id && s[j].tr == collidables_of(s)[k].pose,
    decreases s.len(),
{
    if s.len() != 0 {
        lemma_collidables_bear_colliders(s.skip(1));
        let rest = collidables_of(s.skip(1));
        assert forall|k: int| 0 <= k < collidables_of(s).len() implies exists|j: int|
            0 <= j < s.len() && (#[trigger] s[j]).coll == Some(
                (#[trigger] collidables_of(s)[k]).shape,
            ) && s[j].id == collidables_of(s)[k].id && s[j].tr == collidables_of(s)[k].pose by {
            match s[0].coll {
                Some(shape) => {
                    if k == 0 {
                        assert(s[0].coll == Some(collidables_of(s)[0].shape));
                    } else {
                        assert(collidables_of(s)[k] == rest[k - 1]);
                        let j = choose|j: int|
                            0 <= j < s.skip(1).len() && (#[trigger] s.skip(1)[j]).coll == Some(
                                rest[k - 1].shape,
                            ) && s.skip(1)[j].id == rest[k - 1].id && s.skip(1)[j].tr == rest[k
                                - 1].pose;
                        assert(s[j + 1] == s.skip(1)[j]);
                    }
                },
                None => {
                    assert(collidables_of(s)[k] == rest[k]);
                    let j = choose|j: int|
                        0 <= j < s.skip(1).len() && (#[trigger] s.skip(1)[j]).coll == Some(
                            rest[k].shape,
                        ) && s.skip(1)[j].id == rest[k].id && s.skip(1)[j].tr == rest[k].pose;
                    assert(s[j + 1] == s.skip(1)[j]);
                },
            }
        }
    }
}

/// Every confirmed contact pairs two of the given collidables, with the
/// narrow phase's own contact.
pub proof fn lemma_contacts_come_from_collidables(
    s: Seq<ObjectI>,
    cs: Seq<CollidableI>,
    ps: Seq<(usize, usize)>,
)
    ensures
        forall|k: int|
            0 <= k < confirmed_contacts(s, cs, ps).len() ==> exists|a: int, b: int|
                #![trigger cs[a], cs[b]]
                {
                    let e = #[trigger] confirmed_contacts(s, cs, ps)[k];
                    &&& 0 <= a < b < cs.len()
                    &&& e.id1 == cs[a].id
                    &&& e.id2 == cs[b].id
                    &&& contact_of(cs[a], cs[b]) == Some(e.contact)
                },
    decreases ps.len(),
{
    if ps.len() != 0 {
        lemma_contacts_come_from_collidables(s, cs, ps.skip(1));
        let rest = confirmed_contacts(s, cs, ps.skip(1));
        let whole = confirmed_contacts(s, cs, ps);
        let pa = ps[0].0 as int;
        let pb = ps[0].1 as int;
        assert forall|k: int| 0 <= k < whole.len() implies exists|a: int, b: int|
            #![trigger cs[a], cs[b]]
            {
                let e = #[trigger] whole[k];
                &&& 0 <= a < b < cs.len()
                &&& e.id1 == cs[a].id
                &&& e.id2 == cs[b].id
                &&& contact_of(cs[a], cs[b]) == Some(e.contact)
            } by {
            if 0 <= pa && pa < pb && pb < cs.len() && contact_of(cs[pa], cs[pb]) is Some {
                if k == 0 {
                    assert(whole[0].id1 == cs[pa].id && whole[0].id2 == cs[pb].id
                        && contact_of(cs[pa], cs[pb]) == Some(whole[0].contact));
                } else {
                    assert(whole[k] == rest[k - 1]);
                }
            } else {
                assert(whole[k] == rest[k]);
            }
        }
    }
}


/// What the integrator trait promises of one advancing substep, read
/// at the model level: the post slice is the pre slice advanced.
proof fn lemma_advance_model<I: Integrator>(
    g: I,
    pre: Seq<RigidBodyFilter>,
    post: Seq<RigidBodyFilter>,
)
    requires
        post.len() == pre.len(),
        forall|i: int|
            0 <= i < pre.len() ==> {
                let a = #[trigger] pre[i];
                let b = post[i];
                &&& b.id == a.id
                &&& b.coll == a.coll
                &&& b.body.mass == a.body.mass
                &&& b.body.moment_of_inertia == a.body.moment_of_inertia
                &&& b.body.velocity@ == g.next_vel(a.tr@, a.body@)
                &&& b.tr@ == g.next_pose(a.tr@, a.body@)
            },
    ensures
        omodels(post) == advance(g, omodels(pre)),
{
    assert forall|k: int| 0 <= k < post.len() implies omodels(post)[k] == advance(
        g,
        omodels(pre),
    )[k] by {
        assert(omodels(post)[k] == post[k]@);
        assert(omodels(pre)[k] == pre[k]@);
    }
    assert(omodels(post) =~= advance(g, omodels(pre)));
}

/// A session with no substeps left ends the tick at once.
proof fn lemma_tick_base<I: Integrator, B: BroadPhase>(
    g: I,
    s: Seq<ObjectI>,
    its: nat,
    c0: Seq<ContactEntryI>,
)
    requires
        g.substeps_left() == 0,
    ensures
        tick_from::<I, B>(g, s, its, c0, s, Seq::<EventI>::empty(), c0, 0),
{
    reveal_with_fuel(tick_from, 1);
}

/// Folding one more substep in front: if every completion of the tick
/// from the stepped session extends to the whole tick with the events
/// emitted so far plus this substep's, then so does every completion
/// from before this substep.
proof fn lemma_tick_extend<I: Integrator, B: BroadPhase>(
    g_pre: I,
    m_pre: Seq<ObjectI>,
    its: nat,
    c_pre: Seq<ContactEntryI>,
    g0: I,
    m_start: Seq<ObjectI>,
    c_start: Seq<ContactEntryI>,
    emitted_pre: Seq<EventI>,
    emitted: Seq<EventI>,
    m_new: Seq<ObjectI>,
    cm: Seq<ContactEntryI>,
)
    requires
        g_pre.substeps_left() > 0,
        cm == ({
            let cs = collidables_of(advance(g_pre, m_pre));
            confirmed_contacts(advance(g_pre, m_pre), cs, B::pairs_spec(cs))
        }),
        m_new == resolve_iters(advance(g_pre, m_pre), cm, its),
        emitted == emitted_pre + all_events(cm),
        forall|s_out: Seq<ObjectI>, ev: Seq<EventI>, c_out: Seq<ContactEntryI>, fuel: nat|
            #[trigger] tick_from::<I, B>(g_pre, m_pre, its, c_pre, s_out, ev, c_out, fuel)
                ==> exists|f2: nat|
                tick_from::<I, B>(g0, m_start, its, c_start, s_out, emitted_pre + ev, c_out, f2),
    ensures
        forall|s_out: Seq<ObjectI>, ev: Seq<EventI>, c_out: Seq<ContactEntryI>, fuel: nat|
            #[trigger] tick_from::<I, B>(g_pre.stepped(), m_new, its, cm, s_out, ev, c_out, fuel)
                ==> exists|f2: nat|
                tick_from::<I, B>(g0, m_start, its, c_start, s_out, emitted + ev, c_out, f2),
{
    assert forall|s_out: Seq<ObjectI>, ev: Seq<EventI>, c_out: Seq<ContactEntryI>, fuel: nat|
        #[trigger] tick_from::<I, B>(
        g_pre.stepped(),
        m_new,
        its,
        cm,
        s_out,
        ev,
        c_out,
        fuel,
    ) implies exists|f2: nat|
        tick_from::<I, B>(g0, m_start, its, c_start, s_out, emitted + ev, c_out, f2) by {
        let whole = all_events(cm) + ev;
        assert(whole.take(all_events(cm).len() as int) =~= all_events(cm));
        assert(whole.skip(all_events(cm).len() as int) =~= ev);
        assert(tick_from::<I, B>(g_pre, m_pre, its, c_pre, s_out, whole, c_out, fuel + 1)) by {
            reveal_with_fuel(tick_from, 1);
        }
        let f2 = choose|f2: nat|
            tick_from::<I, B>(g0, m_start, its, c_start, s_out, emitted_pre + whole, c_out, f2);
        assert(emitted_pre + whole =~= emitted + ev);
        assert(tick_from::<I, B>(g0, m_start, its, c_start, s_out, emitted + ev, c_out, f2));
    }
}

// ------------------------------------------------------------------
// Executable resolution
// ------------------------------------------------------------------

/// Everything but the two participants' velocities is unchanged.
pub open spec fn frame_except_vel(pre: Seq<ObjectI>, post: Seq<ObjectI>) -> bool {
    &&& post.len() == pre.len()
    &&& forall|k: int|
        0 <= k < pre.len() ==> {
            let a = #[trigger] pre[k];
            let b = post[k];
            b.id == a.id && b.tr == a.tr && b.coll == a.coll && b.body.inv_mass == a.body.inv_mass
                && b.body.inv_moi == a.body.inv_moi
        }
}

/// `resolve_point` only ever touches the two participants' velocities.
pub proof fn lemma_resolve_point_frame(s: Seq<ObjectI>, i1: int, i2: int, n: V2i, p: V2i)
    ensures
        frame_except_vel(s, resolve_point(s, i1, i2, n, p)),
{
}

/// `resolve_points` only ever touches the participants' velocities.
pub proof fn lemma_resolve_points_frame(s: Seq<ObjectI>, i1: int, i2: int, n: V2i, pts: Seq<V2i>)
    ensures
        frame_except_vel(s, resolve_points(s, i1, i2, n, pts)),
    decreases pts.len(),
{
    if pts.len() != 0 {
        lemma_resolve_point_frame(s, i1, i2, n, pts[0]);
        lemma_resolve_points_frame(resolve_point(s, i1, i2, n, pts[0]), i1, i2, n, pts.skip(1));
    }
}

/// `resolve_pass` only ever touches velocities.
pub proof fn lemma_resolve_pass_frame(s: Seq<ObjectI>, cs: Seq<ContactEntryI>)
    ensures
        frame_except_vel(s, resolve_pass(s, cs)),
    decreases cs.len(),
{
    if cs.len() != 0 {
        lemma_resolve_points_frame(s, cs[0].i1, cs[0].i2, cs[0].contact.normal, cs[0].contact.manifold);
        lemma_resolve_pass_frame(resolve_entry(s, cs[0]), cs.skip(1));
    }
}

/// `resolve_iters` only ever touches velocities.
pub proof fn lemma_resolve_iters_frame(s: Seq<ObjectI>, cs: Seq<ContactEntryI>, iterations: nat)
    ensures
        frame_except_vel(s, resolve_iters(s, cs, iterations)),
    decreases iterations,
{
    if iterations != 0 {
        lemma_resolve_pass_frame(s, cs);
        lemma_resolve_iters_frame(resolve_pass(s, cs), cs, (iterations - 1) as nat);
    }
}

/// Exec-level frame: ids, poses, colliders and mass terms unchanged.
pub open spec fn exec_frame(pre: Seq<RigidBodyFilter>, post: Seq<RigidBodyFilter>) -> bool {
    &&& post.len() == pre.len()
    &&& forall|k: int|
        0 <= k < pre.len() ==> {
            let a = #[trigger] pre[k];
            let b = post[k];
            b.id == a.id && b.tr == a.tr && b.coll == a.coll && b.body.mass == a.body.mass
                && b.body.moment_of_inertia == a.body.moment_of_inertia
        }
}

/// One sequential-impulse update at one contact point.
fn resolve_point_exec(items: &mut Vec<RigidBodyFilter>, i1: usize, i2: usize, n: Vec2, p: Vec2)
    requires
        i1 < old(items)@.len(),
        i2 < old(items)@.len(),
        i1 != i2,
    ensures
        omodels(final(items)@) == resolve_point(
            omodels(old(items)@),
            i1 as int,
            i2 as int,
            n@,
            p@,
        ),
        exec_frame(old(items)@, final(items)@),
{
    let o1 = items[i1];
    let o2 = items[i2];
    let off1 = p.minus(o1.tr.pos);
    let off2 = p.minus(o2.tr.pos);
    let ocn1 = off1.cross(n);
    let ocn2 = off2.cross(n);
    let nv1 = o1.body.velocity.linear.dot(n).plus(ocn1.times(o1.body.velocity.angular));
    let nv2 = o2.body.velocity.linear.dot(n).plus(ocn2.times(o2.body.velocity.angular));
    let rel = nv1.minus(nv2);
    if rel.raw() < 0 {
        proof {
            assert(omodels(items@) =~= resolve_point(
                omodels(items@),
                i1 as int,
                i2 as int,
                n@,
                p@,
            ));
        }
        return ;
    }
    let denom = o1.body.mass.get_inv().plus(o1.body.moment_of_inertia.get_inv()).plus(
        o2.body.mass.get_inv(),
    ).plus(o2.body.moment_of_inertia.get_inv());
    if denom.raw() == 0 {
        proof {
            assert(omodels(items@) =~= resolve_point(
                omodels(items@),
                i1 as int,
                i2 as int,
                n@,
                p@,
            ));
        }
        return ;
    }
    let j = rel.over(denom);
    let mut u1 = o1;
    u1.body = u1.body.with_velocity(
        crate::body::Velocity::new(
            o1.body.velocity.linear.minus(n.scale(o1.body.mass.get_inv().times(j))),
            o1.body.velocity.angular.minus(o1.body.moment_of_inertia.get_inv().times(j).times(ocn1)),
        ),
    );
    let mut u2 = o2;
    u2.body = u2.body.with_velocity(
        crate::body::Velocity::new(
            o2.body.velocity.linear.plus(n.scale(o2.body.mass.get_inv().times(j))),
            o2.body.velocity.angular.plus(o2.body.moment_of_inertia.get_inv().times(j).times(ocn2)),
        ),
    );
    items.set(i1, u1);
    items.set(i2, u2);
    proof {
        assert(omodels(items@) =~= resolve_point(omodels(old(items)@), i1 as int, i2 as int, n@, p@));
    }
}

/// Impulse updates at every point of one contact's manifold.
fn resolve_entry_exec(items: &mut Vec<RigidBodyFilter>, e: &ContactEntry)
    requires
        entry_wf(e@, old(items)@.len() as int),
    ensures
        omodels(final(items)@) == resolve_entry(omodels(old(items)@), e@),
        exec_frame(old(items)@, final(items)@),
{
    let n = e.contact.normal;
    let ghost m0 = omodels(items@);
    let ghost pts = e@.contact.manifold;
    let ghost ii1 = e@.i1;
    let ghost ii2 = e@.i2;
    let ghost nn = e@.contact.normal;
    resolve_point_exec(items, e.i1, e.i2, n, e.contact.manifold.p0);
    let ghost m1 = omodels(items@);
    match e.contact.manifold.p1 {
        Some(q) => {
            resolve_point_exec(items, e.i1, e.i2, n, q);
            proof {
                assert(pts == seq![e.contact.manifold.p0@, q@]);
                assert(pts.skip(1) =~= seq![q@]);
                assert(resolve_points(m0, ii1, ii2, nn, pts) == resolve_points(
                    resolve_point(m0, ii1, ii2, nn, pts[0]),
                    ii1,
                    ii2,
                    nn,
                    pts.skip(1),
                ));
                assert(pts.skip(1)[0] == q@);
                assert(pts.skip(1).skip(1) =~= Seq::<V2i>::empty());
                assert(resolve_points(m1, ii1, ii2, nn, pts.skip(1)) == resolve_points(
                    resolve_point(m1, ii1, ii2, nn, q@),
                    ii1,
                    ii2,
                    nn,
                    pts.skip(1).skip(1),
                ));
                assert(resolve_points(omodels(items@), ii1, ii2, nn, Seq::<V2i>::empty())
                    == omodels(items@));
            }
        },
        None => {
            proof {
                assert(pts == seq![e.contact.manifold.p0@]);
                assert(pts.skip(1) =~= Seq::<V2i>::empty());
                assert(resolve_points(m0, ii1, ii2, nn, pts) == resolve_points(
                    resolve_point(m0, ii1, ii2, nn, pts[0]),
                    ii1,
                    ii2,
                    nn,
                    pts.skip(1),
                ));
                assert(resolve_points(m1, ii1, ii2, nn, Seq::<V2i>::empty()) == m1);
            }
        },
    }
}

/// `iterations` sequential-impulse passes over the contact list.
fn resolve_all_exec(items: &mut Vec<RigidBodyFilter>, contacts: &Vec<ContactEntry>, iterations: usize)
    requires
        forall|k: int|
            0 <= k < contacts@.len() ==> entry_wf(
                (#[trigger] contacts@[k])@,
                old(items)@.len() as int,
            ),
    ensures
        omodels(final(items)@) == resolve_iters(
            omodels(old(items)@),
            centries(contacts@),
            iterations as nat,
        ),
        exec_frame(old(items)@, final(items)@),
{
    let mut it: usize = 0;
    while it < iterations
        invariant
            it <= iterations,
            forall|k: int|
                0 <= k < contacts@.len() ==> entry_wf(
                    (#[trigger] contacts@[k])@,
                    old(items)@.len() as int,
                ),
            exec_frame(old(items)@, items@),
            resolve_iters(omodels(old(items)@), centries(contacts@), iterations as nat)
                == resolve_iters(omodels(items@), centries(contacts@), (iterations - it) as nat),
        decreases iterations - it,
    {
        let ghost pass_pre = omodels(items@);
        proof {
            assert(centries(contacts@).skip(0) =~= centries(contacts@));
        }
        let mut ci: usize = 0;
        while ci < contacts.len()
            invariant
                ci <= contacts@.len(),
                items@.len() == old(items)@.len(),
                forall|k: int|
                    0 <= k < contacts@.len() ==> entry_wf(
                        (#[trigger] contacts@[k])@,
                        old(items)@.len() as int,
                    ),
                exec_frame(old(items)@, items@),
                resolve_pass(pass_pre, centries(contacts@)) == resolve_pass(
                    omodels(items@),
                    centries(contacts@).skip(ci as int),
                ),
            decreases contacts@.len() - ci,
        {
            let e = &contacts[ci];
            let ghost pre = omodels(items@);
            resolve_entry_exec(items, e);
            proof {
                let cs = centries(contacts@);
                assert(cs.skip(ci as int)[0] == e@);
                assert(cs.skip(ci as int).skip(1) =~= cs.skip(ci as int + 1));
            }
            ci = ci + 1;
        }
        proof {
            assert(centries(contacts@).skip(contacts@.len() as int) =~= Seq::<
                ContactEntryI,
            >::empty());
            assert(resolve_iters(pass_pre, centries(contacts@), (iterations - it) as nat)
                == resolve_iters(
                resolve_pass(pass_pre, centries(contacts@)),
                centries(contacts@),
                (iterations - it - 1) as nat,
            ));
        }
        it = it + 1;
    }
}

// ------------------------------------------------------------------
// Laws of the impulse rule
// ------------------------------------------------------------------

/// All components of a velocity are representable raw counts.
pub open spec fn vel_ok(v: crate::body::VelocityI) -> bool {
    &&& fx_ok(v.linear.x)
    &&& fx_ok(v.linear.y)
    &&& fx_ok(v.angular)
}

/// Idempotence on separating contacts: when the two objects of a
/// contact already separate along the normal at every manifold point,
/// one resolution of the contact changes nothing at all.
pub proof fn lemma_separating_contact_unchanged(
    s: Seq<ObjectI>,
    i1: int,
    i2: int,
    n: V2i,
    pts: Seq<V2i>,
)
    requires
        0 <= i1 < s.len(),
        0 <= i2 < s.len(),
        i1 != i2,
        forall|k: int|
            0 <= k < pts.len() ==> rel_normal_vel(s[i1], s[i2], n, #[trigger] pts[k]) < 0,
    ensures
        resolve_points(s, i1, i2, n, pts) == s,
    decreases pts.len(),
{
    if pts.len() != 0 {
        assert(rel_normal_vel(s[i1], s[i2], n, pts[0]) < 0);
        assert(resolve_point(s, i1, i2, n, pts[0]) == s);
        assert forall|k: int|
            0 <= k < pts.skip(1).len() implies rel_normal_vel(
            s[i1],
            s[i2],
            n,
            #[trigger] pts.skip(1)[k],
        ) < 0 by {
            assert(pts.skip(1)[k] == pts[k + 1]);
        }
        lemma_separating_contact_unchanged(s, i1, i2, n, pts.skip(1));
    }
}

/// An immovable body (zero inverse mass and zero inverse inertia)
/// absorbs no impulse: one contact-point update leaves it unchanged.
pub proof fn lemma_static_body_point(s: Seq<ObjectI>, i1: int, i2: int, n: V2i, p: V2i, k: int)
    requires
        0 <= k < s.len(),
        s[k].body.inv_mass == 0,
        s[k].body.inv_moi == 0,
        vel_ok(s[k].body.vel),
    ensures
        resolve_point(s, i1, i2, n, p)[k] == s[k],
        resolve_point(s, i1, i2, n, p).len() == s.len(),
{
    if 0 <= i1 < s.len() && 0 <= i2 < s.len() && i1 != i2 {
        let o1 = s[i1];
        let o2 = s[i2];
        let rel = rel_normal_vel(o1, o2, n, p);
        let denom = inv_sum(o1, o2);
        if !(rel < 0 || denom == 0) {
            let j = fx_div(rel, denom);
            if k == i1 || k == i2 {
                let o = s[k];
                lemma_fx_mul_zero(j);
                lemma_fx_mul_zero(n.x);
                lemma_fx_mul_zero(n.y);
                let dv = v2_scale(n, fx_mul(o.body.inv_mass, j));
                assert(dv == (V2i { x: 0, y: 0 }));
                lemma_fx_mul_zero(offset_cross_normal(o, n, p));
                assert(fx_mul(fx_mul(o.body.inv_moi, j), offset_cross_normal(o, n, p)) == 0);
                if k == i1 {
                    assert(body_after_impulse(o, n, j, offset_cross_normal(o, n, p), -1) == o);
                } else {
                    assert(body_after_impulse(o, n, j, offset_cross_normal(o, n, p), 1) == o);
                }
            }
        }
    }
}

/// An immovable body keeps its velocity through the resolution of a
/// whole manifold.
pub proof fn lemma_static_body_points(
    s: Seq<ObjectI>,
    i1: int,
    i2: int,
    n: V2i,
    pts: Seq<V2i>,
    k: int,
)
    requires
        0 <= k < s.len(),
        s[k].body.inv_mass == 0,
        s[k].body.inv_moi == 0,
        vel_ok(s[k].body.vel),
    ensures
        resolve_points(s, i1, i2, n, pts)[k] == s[k],
        resolve_points(s, i1, i2, n, pts).len() == s.len(),
    decreases pts.len(),
{
    if pts.len() != 0 {
        lemma_static_body_point(s, i1, i2, n, pts[0], k);
        lemma_static_body_points(resolve_point(s, i1, i2, n, pts[0]), i1, i2, n, pts.skip(1), k);
    }
}

/// An immovable body keeps its velocity through one pass over a whole
/// contact list.
pub proof fn lemma_static_body_pass(s: Seq<ObjectI>, cs: Seq<ContactEntryI>, k: int)
    requires
        0 <= k < s.len(),
        s[k].body.inv_mass == 0,
        s[k].body.inv_moi == 0,
        vel_ok(s[k].body.vel),
    ensures
        resolve_pass(s, cs)[k] == s[k],
        resolve_pass(s, cs).len() == s.len(),
    decreases cs.len(),
{
    if cs.len() != 0 {
        lemma_static_body_points(s, cs[0].i1, cs[0].i2, cs[0].contact.normal, cs[0].contact.manifold, k);
        lemma_static_body_pass(resolve_entry(s, cs[0]), cs.skip(1), k);
    }
}

/// A struck immovable body's velocity remains exactly unchanged through
/// any number of sequential-impulse passes: all velocity change appears
/// on the other, movable participants.
pub proof fn lemma_static_body_unmoved(
    s: Seq<ObjectI>,
    cs: Seq<ContactEntryI>,
    iterations: nat,
    k: int,
)
    requires
        0 <= k < s.len(),
        s[k].body.inv_mass == 0,
        s[k].body.inv_moi == 0,
        vel_ok(s[k].body.vel),
    ensures
        resolve_iters(s, cs, iterations)[k] == s[k],
        resolve_iters(s, cs, iterations).len() == s.len(),
    decreases iterations,
{
    if iterations != 0 {
        lemma_static_body_pass(s, cs, k);
        lemma_static_body_unmoved(resolve_pass(s, cs), cs, (iterations - 1) as nat, k);
    }
}

/// Fully inelastic head-on resolution: two rotationally fixed bodies of
/// unit mass that approach along the x axis with no lever arms keep at
/// most one raw count (one millionth of a unit) of approach velocity
/// after one resolution at the point — the relative normal velocity is
/// absorbed, not reversed.
pub proof fn lemma_headon_resolution_inelastic(
    s: Seq<ObjectI>,
    i1: int,
    i2: int,
    n: V2i,
    p: V2i,
)
    requires
        0 <= i1 < s.len(),
        0 <= i2 < s.len(),
        i1 != i2,
        n == (V2i { x: SCALE as int, y: 0 }),
        s[i1].body.inv_mass == SCALE as int,
        s[i2].body.inv_mass == SCALE as int,
        s[i1].body.inv_moi == 0,
        s[i2].body.inv_moi == 0,
        offset_cross_normal(s[i1], n, p) == 0,
        offset_cross_normal(s[i2], n, p) == 0,
        -(FX_MAX as int) / 2 <= s[i1].body.vel.linear.x <= (FX_MAX as int) / 2,
        -(FX_MAX as int) / 2 <= s[i2].body.vel.linear.x <= (FX_MAX as int) / 2,
        rel_normal_vel(s[i1], s[i2], n, p) >= 0,
    ensures
        ({
            let post = resolve_point(s, i1, i2, n, p);
            0 <= rel_normal_vel(post[i1], post[i2], n, p) <= 1
        }),
{
    let sc = SCALE as int;
    let o1 = s[i1];
    let o2 = s[i2];
    let x1 = o1.body.vel.linear.x;
    let x2 = o2.body.vel.linear.x;
    lemma_fx_mul_one(x1);
    lemma_fx_mul_one(x2);
    lemma_fx_mul_zero(o1.body.vel.linear.y);
    lemma_fx_mul_zero(o2.body.vel.linear.y);
    lemma_fx_mul_zero(o1.body.vel.angular);
    lemma_fx_mul_zero(o2.body.vel.angular);
    assert(normal_vel(o1, n, p) == x1);
    assert(normal_vel(o2, n, p) == x2);
    let rel = rel_normal_vel(o1, o2, n, p);
    assert(rel == x1 - x2);
    let denom = inv_sum(o1, o2);
    assert(denom == 2 * sc);
    let q = tdiv(rel * sc, 2 * sc);
    lemma_fx_half_remainder(rel);
    assert(0 <= rel - 2 * q <= 1);
    assert(rel * sc >= 0) by (nonlinear_arith)
        requires
            rel >= 0,
            sc > 0,
    ;
    lemma_tdiv_bound(rel * sc, 2 * sc);
    assert(q >= 0);
    assert(q <= rel) by {
        assert(2 * q <= rel);
    }
    let j = fx_div(rel, denom);
    assert(j == q);
    lemma_fx_mul_one(j);
    lemma_fx_mul_zero(j);
    let post = resolve_point(s, i1, i2, n, p);
    let u1 = body_after_impulse(o1, n, j, 0, -1);
    let u2 = body_after_impulse(o2, n, j, 0, 1);
    assert(post[i1] == u1 && post[i2] == u2);
    assert(u1.body.vel.linear.x == x1 - j);
    assert(u2.body.vel.linear.x == x2 + j);
    assert(u1.tr == o1.tr && u2.tr == o2.tr);
    assert(offset_cross_normal(u1, n, p) == 0 && offset_cross_normal(u2, n, p) == 0);
    lemma_fx_mul_one(x1 - j);
    lemma_fx_mul_one(x2 + j);
    lemma_fx_mul_zero(u1.body.vel.linear.y);
    lemma_fx_mul_zero(u2.body.vel.linear.y);
    lemma_fx_mul_zero(u1.body.vel.angular);
    lemma_fx_mul_zero(u2.body.vel.angular);
    assert(normal_vel(u1, n, p) == x1 - j);
    assert(normal_vel(u2, n, p) == x2 + j);
    assert(rel_normal_vel(u1, u2, n, p) == sat64((x1 - j) - (x2 + j)));
    assert((x1 - j) - (x2 + j) == rel - 2 * q);
}

/// Idempotence on separating contacts through any number of passes: a
/// contact list holding one contact whose participants already separate
/// at every manifold point changes nothing, however many passes run.
pub proof fn lemma_separating_contact_iters(s: Seq<ObjectI>, e: ContactEntryI, iterations: nat)
    requires
        entry_wf(e, s.len() as int),
        forall|k: int|
            0 <= k < e.contact.manifold.len() ==> rel_normal_vel(
                s[e.i1],
                s[e.i2],
                e.contact.normal,
                #[trigger] e.contact.manifold[k],
            ) < 0,
    ensures
        resolve_iters(s, seq![e], iterations) == s,
    decreases iterations,
{
    if iterations != 0 {
        lemma_separating_contact_unchanged(s, e.i1, e.i2, e.contact.normal, e.contact.manifold);
        assert(seq![e][0] == e);
        assert(resolve_entry(s, e) == s);
        assert(seq![e].skip(1) =~= Seq::<ContactEntryI>::empty());
        assert(resolve_pass(s, Seq::<ContactEntryI>::empty()) == s);
        assert(resolve_pass(s, seq![e]) == s);
        lemma_separating_contact_iters(s, e, (iterations - 1) as nat);
    }
}

/// A fresh reference-integrator session runs exactly one collision
/// substep, so the tick relation pins the final objects, the appended
/// events and the published contacts to that one substep's pipeline.
pub proof fn lemma_euler_tick_shape<B: BroadPhase>(
    g0: SemiImplicitEuler,
    s: Seq<ObjectI>,
    its: nat,
    c0: Seq<ContactEntryI>,
    s_out: Seq<ObjectI>,
    ev_out: Seq<EventI>,
    c_out: Seq<ContactEntryI>,
    fuel: nat,
)
    requires
        !g0.applied,
        tick_from::<SemiImplicitEuler, B>(g0, s, its, c0, s_out, ev_out, c_out, fuel),
    ensures
        ({
            let advanced = advance(g0, s);
            let cs = collidables_of(advanced);
            let contacts = confirmed_contacts(advanced, cs, B::pairs_spec(cs));
            &&& s_out == resolve_iters(advanced, contacts, its)
            &&& ev_out == all_events(contacts)
            &&& c_out == contacts
        }),
{
    reveal_with_fuel(tick_from, 2);
    let advanced = advance(g0, s);
    let cs = collidables_of(advanced);
    let contacts = confirmed_contacts(advanced, cs, B::pairs_spec(cs));
    let head = all_events(contacts);
    assert(g0.substeps_left() == 1);
    assert(fuel > 0);
    assert(g0.stepped().substeps_left() == 0);
    assert(ev_out.skip(head.len() as int) =~= Seq::<EventI>::empty());
    assert(ev_out =~= ev_out.take(head.len() as int) + ev_out.skip(head.len() as int));
    assert(head + Seq::<EventI>::empty() =~= head);
}

/// A struck immovable body keeps its velocity through a whole
/// reference-integrator tick: the step rule leaves an immovable body's
/// velocity alone, and every impulse on it is scaled by its zero
/// inverses, so all velocity change appears on the movable bodies.
pub proof fn lemma_euler_tick_static_body<B: BroadPhase>(
    g0: SemiImplicitEuler,
    s: Seq<ObjectI>,
    its: nat,
    c0: Seq<ContactEntryI>,
    s_out: Seq<ObjectI>,
    ev_out: Seq<EventI>,
    c_out: Seq<ContactEntryI>,
    fuel: nat,
    k: int,
)
    requires
        !g0.applied,
        tick_from::<SemiImplicitEuler, B>(g0, s, its, c0, s_out, ev_out, c_out, fuel),
        0 <= k < s.len(),
        s[k].body.inv_mass == 0,
        s[k].body.inv_moi == 0,
        vel_ok(s[k].body.vel),
    ensures
        s_out.len() == s.len(),
        s_out[k].body.vel == s[k].body.vel,
{
    lemma_euler_tick_shape::<B>(g0, s, its, c0, s_out, ev_out, c_out, fuel);
    let advanced = advance(g0, s);
    let cs = collidables_of(advanced);
    let contacts = confirmed_contacts(advanced, cs, B::pairs_spec(cs));
    assert(advanced[k].body.vel == s[k].body.vel);
    assert(advanced[k].body.inv_mass == 0 && advanced[k].body.inv_moi == 0);
    lemma_static_body_unmoved(advanced, contacts, its, k);
}

// ------------------------------------------------------------------
// Id lookup and event forwarding
// ------------------------------------------------------------------

/// The id → index map over the object slice.
fn build_id_map(items: &Vec<RigidBodyFilter>) -> (r: Vec<(u64, usize)>)
    ensures
        r@.len() == items@.len(),
        forall|k: int|
            0 <= k < r@.len() ==> (#[trigger] r@[k]).0 == items@[k].id && r@[k].1 as int == k,
{
    let mut r: Vec<(u64, usize)> = Vec::new();
    let mut k: usize = 0;
    while k < items.len()
        invariant
            k <= items@.len(),
            r@.len() == k as int,
            forall|j: int|
                0 <= j < k as int ==> (#[trigger] r@[j]).0 == items@[j].id && r@[j].1 as int == j,
        decreases items@.len() - k,
    {
        r.push((items[k].id, k));
        k = k + 1;
    }
    r
}

/// Look an id up in the map.
fn find_index(map: &Vec<(u64, usize)>, id: u64) -> (r: usize)
    requires
        exists|k: int| 0 <= k < map@.len() && (#[trigger] map@[k]).0 == id,
    ensures
        exists|k: int| 0 <= k < map@.len() && (#[trigger] map@[k]).0 == id && map@[k].1 == r,
{
    let mut k: usize = 0;
    while k < map.len()
        invariant
            k <= map@.len(),
            exists|j: int| k as int <= j < map@.len() && (#[trigger] map@[j]).0 == id,
        decreases map@.len() - k,
    {
        let entry = map[k];
        if entry.0 == id {
            return entry.1;
        }
        k = k + 1;
    }
    proof {
        assert(false);
    }
    0
}

/// Construct the two symmetric events of every contact and forward them
/// to the event sink, in contact order.
pub fn push_events(queue: &mut Vec<CollisionEvent>, contacts: &Vec<ContactEntry>)
    ensures
        emodels(final(queue)@) == emodels(old(queue)@) + all_events(centries(contacts@)),
        old(queue)@.is_prefix_of(final(queue)@),
        final(queue)@.len() == old(queue)@.len() + 2 * contacts@.len(),
        contacts@.len() == 0 ==> final(queue)@ == old(queue)@,
{
    let ghost q0 = queue@;
    let ghost cs = centries(contacts@);
    proof {
        assert(cs.skip(0) =~= cs);
    }
    let mut ei: usize = 0;
    while ei < contacts.len()
        invariant
            ei <= contacts@.len(),
            cs == centries(contacts@),
            q0.is_prefix_of(queue@),
            queue@.len() == q0.len() + 2 * ei,
            emodels(q0) + all_events(cs) == emodels(queue@) + all_events(cs.skip(ei as int)),
        decreases contacts@.len() - ei,
    {
        let e = &contacts[ei];
        let ghost qpre = queue@;
        queue.push(
            CollisionEvent {
                source: e.id1,
                other: e.id2,
                normal: e.contact.normal,
                depth: e.contact.depth,
                manifold: e.contact.manifold,
            },
        );
        queue.push(
            CollisionEvent {
                source: e.id2,
                other: e.id1,
                normal: e.contact.normal.neg(),
                depth: e.contact.depth,
                manifold: e.contact.manifold.offset_back(e.contact.normal.scale(e.contact.depth)),
            },
        );
        proof {
            assert(cs.skip(ei as int)[0] == e@);
            assert(cs.skip(ei as int).skip(1) =~= cs.skip(ei as int + 1));
            assert(all_events(cs.skip(ei as int)) == events_of(e@) + all_events(
                cs.skip(ei as int + 1),
            ));
            assert(emodels(queue@) =~= emodels(qpre) + events_of(e@));
            assert(emodels(q0) + all_events(cs) =~= emodels(queue@) + all_events(
                cs.skip(ei as int + 1),
            ));
            assert(q0.is_prefix_of(queue@)) by {
                assert(queue@.subrange(0, q0.len() as int) =~= qpre.subrange(
                    0,
                    q0.len() as int,
                ));
            }
        }
        ei = ei + 1;
    }
    proof {
        assert(cs.skip(contacts@.len() as int) =~= Seq::<ContactEntryI>::empty());
        assert(emodels(queue@) =~= emodels(q0) + all_events(cs));
        if contacts@.len() == 0 {
            assert(queue@ =~= q0);
        }
    }
}

/// The ghost mirrors of the event queue.
pub open spec fn emodels(s: Seq<CollisionEvent>) -> Seq<EventI> {
    s.map_values(|e: CollisionEvent| e@)
}

// ------------------------------------------------------------------
// The solver
// ------------------------------------------------------------------

/// A tick leaves every object's identity, collider and mass terms
/// untouched; only poses and velocities move.
pub open spec fn tick_frame(pre: Seq<RigidBodyFilter>, post: Seq<RigidBodyFilter>) -> bool {
    &&& post.len() == pre.len()
    &&& forall|k: int|
        0 <= k < pre.len() ==> {
            let a = #[trigger] pre[k];
            let b = post[k];
            b.id == a.id && b.coll == a.coll && b.body.mass == a.body.mass
                && b.body.moment_of_inertia == a.body.moment_of_inertia
        }
}

/// The collision solver: calculates movement for rigid bodies while
/// taking collisions into account.  Integrators and broad-phase
/// strategies are interchangeable.
pub struct CollisionSolver {
    /// Length of one simulated step, in seconds.
    pub timestep: Fx,
    /// Number of sequential-impulse passes per substep.
    pub iterations: usize,
    /// The contact list of the most recent substep, for debug and
    /// visualization consumers; overwritten on every substep and valid
    /// only until the next tick.
    pub contacts: Vec<ContactEntry>,
}

impl CollisionSolver {
    /// Create a solver with the given timestep.  With a constant
    /// timestep this can be called once and stored; otherwise update
    /// the timestep every frame with `set_timestep`.
    pub fn with_timestep(timestep: Fx, iterations: usize) -> (r: CollisionSolver)
        ensures
            r.timestep == timestep,
            r.iterations == iterations,
            r.contacts@.len() == 0,
    {
        CollisionSolver { timestep, iterations, contacts: Vec::new() }
    }

    /// Set the timestep on an existing solver.
    pub fn set_timestep(&mut self, timestep: Fx)
        ensures
            final(self).timestep == timestep,
            final(self).iterations == old(self).iterations,
            final(self).contacts == old(self).contacts,
    {
        self.timestep = timestep;
    }

    /// The contact list of the most recent substep.
    pub fn last_contacts(&self) -> (r: &Vec<ContactEntry>)
        ensures
            r@ == self.contacts@,
    {
        &self.contacts
    }

    /// One collision pass of the tick, over the current object slice:
    /// gather the collider-bearing objects, confirm contacts by broad
    /// and narrow phase, resolve them for `iterations` passes, forward
    /// their two events each, and publish the contact list.  The map
    /// must be the id → index map of the slice.
    #[verifier::rlimit(100)]
    #[verifier::spinoff_prover]
    fn collision_pass<B: BroadPhase>(
        &mut self,
        items: &mut Vec<RigidBodyFilter>,
        queue: &mut Vec<CollisionEvent>,
        map: &Vec<(u64, usize)>,
    )
        requires
            ids_unique(old(items)@),
            map@.len() == old(items)@.len(),
            forall|k: int|
                0 <= k < map@.len() ==> (#[trigger] map@[k]).0 == old(items)@[k].id && map@[k].1 as int == k,
        ensures
            final(self).timestep == old(self).timestep,
            final(self).iterations == old(self).iterations,
            exec_frame(old(items)@, final(items)@),
            ids_unique(final(items)@),
            old(queue)@.is_prefix_of(final(queue)@),
            ({
                let m = omodels(old(items)@);
                let cs = collidables_of(m);
                let contacts = confirmed_contacts(m, cs, B::pairs_spec(cs));
                &&& centries(final(self).contacts@) == contacts
                &&& omodels(final(items)@) == resolve_iters(
                    m,
                    contacts,
                    old(self).iterations as nat,
                )
                &&& emodels(final(queue)@) == emodels(old(queue)@) + all_events(contacts)
            }),
            (forall|k: int|
                0 <= k < old(items)@.len() ==> (#[trigger] old(items)@[k]).coll is None)
                ==> final(queue)@ == old(queue)@,
    {
        let ghost madv = omodels(items@);
        // gather the objects that carry a collider
        let mut collidables: Vec<Collidable> = Vec::new();
        let ghost mut srcs: Seq<int> = Seq::empty();
        proof {
            assert(madv.skip(0) =~= madv);
            assert(models(collidables@) =~= Seq::<CollidableI>::empty());
            assert(collidables_of(madv) =~= models(collidables@) + collidables_of(madv.skip(0)));
        }
        let mut gi: usize = 0;
        while gi < items.len()
            invariant
                gi <= items@.len(),
                items@ == old(items)@,
                madv == omodels(items@),
                srcs.len() == collidables@.len(),
                forall|k1: int, k2: int| 0 <= k1 < k2 < srcs.len() ==> srcs[k1] < srcs[k2],
                forall|k: int| 0 <= k < srcs.len() ==> 0 <= #[trigger] srcs[k] < gi as int,
                forall|k: int|
                    0 <= k < collidables@.len() ==> {
                        let c = #[trigger] collidables@[k];
                        &&& items@[srcs[k]].coll == Some(c.coll)
                        &&& c.id == items@[srcs[k]].id
                    },
                collidables_of(madv) == models(collidables@) + collidables_of(
                    madv.skip(gi as int),
                ),
            decreases items@.len() - gi,
        {
            let o = items[gi];
            proof {
                assert(madv.skip(gi as int)[0] == madv[gi as int]);
                assert(madv[gi as int] == items@[gi as int]@);
                assert(madv.skip(gi as int).skip(1) =~= madv.skip(gi as int + 1));
            }
            match o.coll {
                Some(c) => {
                    let ghost cpre = collidables@;
                    collidables.push(Collidable { id: o.id, tr: o.tr, coll: c });
                    proof {
                        srcs = srcs.push(gi as int);
                        assert(madv[gi as int].coll == Some(c@));
                        assert(collidables_of(madv.skip(gi as int)) == seq![
                            CollidableI {
                                id: madv[gi as int].id,
                                pose: madv[gi as int].tr,
                                shape: c@,
                            },
                        ] + collidables_of(madv.skip(gi as int + 1)));
                        assert(models(collidables@) =~= models(cpre) + seq![
                            (Collidable { id: o.id, tr: o.tr, coll: c })@,
                        ]);
                        assert((Collidable { id: o.id, tr: o.tr, coll: c })@ == (CollidableI {
                            id: madv[gi as int].id,
                            pose: madv[gi as int].tr,
                            shape: c@,
                        }));
                        assert((models(cpre) + seq![(Collidable { id: o.id, tr: o.tr, coll: c })@])
                            + collidables_of(madv.skip(gi as int + 1)) =~= models(cpre) + (seq![
                            (Collidable { id: o.id, tr: o.tr, coll: c })@,
                        ] + collidables_of(madv.skip(gi as int + 1))));
                    }
                },
                None => {
                    proof {
                        assert(madv[gi as int].coll is None);
                        assert(collidables_of(madv.skip(gi as int)) == collidables_of(
                            madv.skip(gi as int + 1),
                        ));
                    }
                },
            }
            gi = gi + 1;
        }
        proof {
            assert(madv.skip(items@.len() as int) =~= Seq::<ObjectI>::empty());
            assert(collidables_of(Seq::<ObjectI>::empty()) == Seq::<CollidableI>::empty());
            assert(models(collidables@) + Seq::<CollidableI>::empty() =~= models(collidables@));
            // distinct source rows give distinct collidable ids
            assert forall|k1: int, k2: int|
                0 <= k1 < k2 < collidables@.len() implies collidables@[k1].id != collidables@[k2].id by {
                assert(0 <= srcs[k1] && srcs[k1] < srcs[k2] && srcs[k2] < items@.len());
                assert(items@[srcs[k1]].id != items@[srcs[k2]].id);
                assert(collidables@[k1].id == items@[srcs[k1]].id);
                assert(collidables@[k2].id == items@[srcs[k2]].id);
            }
        }
        let ghost csm = models(collidables@);
        proof {
            assert(csm == collidables_of(madv));
        }
        // broad phase, then narrow phase on each candidate
        let pairs = B::pairs(&collidables);
        let mut contacts: Vec<ContactEntry> = Vec::new();
        proof {
            assert(pairs@.skip(0) =~= pairs@);
            assert(centries(contacts@) =~= Seq::<ContactEntryI>::empty());
            assert(confirmed_contacts(madv, csm, pairs@) =~= centries(contacts@)
                + confirmed_contacts(madv, csm, pairs@.skip(0)));
        }
        let mut pi: usize = 0;
        while pi < pairs.len()
            invariant
                pi <= pairs@.len(),
                pairs_wf(pairs@, collidables@.len() as int),
                items@ == old(items)@,
                madv == omodels(items@),
                csm == models(collidables@),
                csm.len() == collidables@.len(),
                ids_unique(items@),
                map@.len() == items@.len(),
                forall|k: int|
                    0 <= k < map@.len() ==> (#[trigger] map@[k]).0 == items@[k].id && map@[k].1 as int == k,
                srcs.len() == collidables@.len(),
                forall|k1: int, k2: int|
                    0 <= k1 < k2 < collidables@.len() ==> collidables@[k1].id != collidables@[k2].id,
                forall|k: int|
                    0 <= k < collidables@.len() ==> 0 <= #[trigger] srcs[k] < items@.len()
                        && items@[srcs[k]].id == collidables@[k].id,
                contacts@.len() <= pi as int,
                forall|k: int|
                    0 <= k < contacts@.len() ==> entry_wf(
                        (#[trigger] contacts@[k])@,
                        items@.len() as int,
                    ),
                confirmed_contacts(madv, csm, pairs@) == centries(contacts@) + confirmed_contacts(
                    madv,
                    csm,
                    pairs@.skip(pi as int),
                ),
            decreases pairs@.len() - pi,
        {
            let pr = pairs[pi];
            let a = pr.0;
            let b = pr.1;
            proof {
                assert(pairs@[pi as int].0 < pairs@[pi as int].1);
                assert((pairs@[pi as int].1 as int) < collidables@.len());
                assert(pairs@.skip(pi as int)[0] == pairs@[pi as int]);
                assert(pairs@.skip(pi as int).skip(1) =~= pairs@.skip(pi as int + 1));
            }
            let ca = collidables[a];
            let cb = collidables[b];
            proof {
                assert(csm[a as int] == ca@ && csm[b as int] == cb@);
            }
            match intersection_check(&ca, &cb) {
                Some(c) => {
                    proof {
                        assert(map@[srcs[a as int]].0 == ca.id);
                        assert(map@[srcs[b as int]].0 == cb.id);
                    }
                    let i1 = find_index(&map, ca.id);
                    let i2 = find_index(&map, cb.id);
                    proof {
                        let k1 = choose|k: int|
                            0 <= k < map@.len() && (#[trigger] map@[k]).0 == ca.id && map@[k].1
                                == i1;
                        let k2 = choose|k: int|
                            0 <= k < map@.len() && (#[trigger] map@[k]).0 == cb.id && map@[k].1
                                == i2;
                        assert(i1 as int == k1 && i2 as int == k2);
                        assert(ca.id != cb.id);
                        assert(items@[i1 as int].id == ca.id && items@[i2 as int].id == cb.id);
                    }
                    let entry = ContactEntry { i1, i2, id1: ca.id, id2: cb.id, contact: c };
                    let ghost cvpre = contacts@;
                    contacts.push(entry);
                    proof {
                        // the map's answer is the unique position of the id
                        assert(madv[i1 as int].id == ca.id as int);
                        assert(madv[i2 as int].id == cb.id as int);
                        let kk1 = index_of_id(madv, csm[a as int].id);
                        let kk2 = index_of_id(madv, csm[b as int].id);
                        assert(0 <= kk1 < madv.len() && madv[kk1].id == ca.id as int);
                        assert(0 <= kk2 < madv.len() && madv[kk2].id == cb.id as int);
                        if kk1 != i1 as int {
                            assert(items@[kk1].id as int == items@[i1 as int].id as int);
                            assert(items@[kk1].id == items@[i1 as int].id);
                            assert(false);
                        }
                        if kk2 != i2 as int {
                            assert(items@[kk2].id as int == items@[i2 as int].id as int);
                            assert(items@[kk2].id == items@[i2 as int].id);
                            assert(false);
                        }
                        assert(contact_of(csm[a as int], csm[b as int]) == Some(c@));
                        assert(entry@ == (ContactEntryI {
                            i1: index_of_id(madv, csm[a as int].id),
                            i2: index_of_id(madv, csm[b as int].id),
                            id1: csm[a as int].id,
                            id2: csm[b as int].id,
                            contact: contact_of(csm[a as int], csm[b as int])->Some_0,
                        }));
                        assert(confirmed_contacts(madv, csm, pairs@.skip(pi as int)) == seq![
                            entry@,
                        ] + confirmed_contacts(madv, csm, pairs@.skip(pi as int + 1)));
                        assert(centries(contacts@) =~= centries(cvpre) + seq![entry@]);
                        assert((centries(cvpre) + seq![entry@]) + confirmed_contacts(
                            madv,
                            csm,
                            pairs@.skip(pi as int + 1),
                        ) =~= centries(cvpre) + (seq![entry@] + confirmed_contacts(
                            madv,
                            csm,
                            pairs@.skip(pi as int + 1),
                        )));
                    }
                },
                None => {
                    proof {
                        assert(contact_of(csm[a as int], csm[b as int]) is None);
                        assert(confirmed_contacts(madv, csm, pairs@.skip(pi as int))
                            == confirmed_contacts(madv, csm, pairs@.skip(pi as int + 1)));
                    }
                },
            }
            pi = pi + 1;
        }
        proof {
            assert(pairs@.skip(pairs@.len() as int) =~= Seq::<(usize, usize)>::empty());
            assert(confirmed_contacts(madv, csm, Seq::<(usize, usize)>::empty()) == Seq::<
                ContactEntryI,
            >::empty());
            assert(centries(contacts@) + Seq::<ContactEntryI>::empty() =~= centries(contacts@));
            if forall|k: int|
                0 <= k < old(items)@.len() ==> (#[trigger] old(items)@[k]).coll is None {
                if pairs@.len() > 0 {
                    assert(pairs@[0].0 < pairs@[0].1 && (pairs@[0].1 as int) < collidables@.len());
                    if collidables@.len() > 0 {
                        assert(items@[srcs[0]].coll == Some(collidables@[0].coll));
                        assert((old(items)@[srcs[0]]).coll is None);
                    }
                    assert(false);
                }
                assert(contacts@.len() == 0);
            }
        }
        let ghost cm = centries(contacts@);
        proof {
            assert(cm == confirmed_contacts(madv, csm, B::pairs_spec(csm)));
        }
        // sequential impulse resolution
        let ghost items_mid = items@;
        resolve_all_exec(items, &contacts, self.iterations);
        proof {
            assert forall|k1: int, k2: int| 0 <= k1 < k2 < items@.len() implies items@[k1].id
                != items@[k2].id by {
                assert(items_mid[k1].id != items_mid[k2].id);
            }
            assert(ids_unique(items@));
            assert(omodels(items@) == resolve_iters(madv, cm, old(self).iterations as nat));
        }
        // two symmetric events per contact, and the debug surface
        let ghost qpre = queue@;
        push_events(queue, &contacts);
        proof {
            assert(old(queue)@.is_prefix_of(queue@)) by {
                assert(queue@.subrange(0, old(queue)@.len() as int) =~= qpre.subrange(
                    0,
                    old(queue)@.len() as int,
                ));
            }
            if contacts@.len() == 0 {
                assert(queue@ == qpre);
            }
        }
        self.contacts = contacts;
    }

    /// Run one simulation tick over the object slice, forwarding the
    /// collision events of every substep to the sink.  Object ids must
    /// be unique; the solver builds an id → index map over the slice
    /// and resolves each contact on the two distinct objects it maps
    /// to.  The whole tick is pinned by `tick_from`: starting from a
    /// fresh integrator session, every substep advances the objects by
    /// the integrator's rule, confirms contacts by broad and narrow
    /// phase over the collider-bearing objects, resolves them for
    /// `iterations` passes, appends their two events each, and
    /// publishes the contact list, until the session completes.
    #[verifier::rlimit(100)]
    #[verifier::spinoff_prover]
    pub fn run_system<I: Integrator, B: BroadPhase>(
        &mut self,
        items: &mut Vec<RigidBodyFilter>,
        queue: &mut Vec<CollisionEvent>,
    )
        requires
            ids_unique(old(items)@),
        ensures
            final(self).timestep == old(self).timestep,
            final(self).iterations == old(self).iterations,
            tick_frame(old(items)@, final(items)@),
            ids_unique(final(items)@),
            old(queue)@.is_prefix_of(final(queue)@),
            exists|g0: I, appended: Seq<EventI>, fuel: nat|
                {
                    &&& g0.fresh(old(self).timestep@)
                    &&& emodels(final(queue)@) == emodels(old(queue)@) + appended
                    &&& #[trigger] tick_from::<I, B>(
                        g0,
                        omodels(old(items)@),
                        old(self).iterations as nat,
                        centries(old(self).contacts@),
                        omodels(final(items)@),
                        appended,
                        centries(final(self).contacts@),
                        fuel,
                    )
                },
            (forall|k: int|
                0 <= k < old(items)@.len() ==> (#[trigger] old(items)@[k]).coll is None)
                ==> final(queue)@ == old(queue)@,
    {
        let map = build_id_map(items);
        let mut integ = I::begin_step(self.timestep);
        let ghost g0 = integ;
        let ghost m_start = omodels(items@);
        let ghost c_start = centries(self.contacts@);
        let ghost its = old(self).iterations as nat;
        let ghost mut emitted: Seq<EventI> = Seq::empty();
        let ghost all_none = forall|k: int|
            0 <= k < old(items)@.len() ==> (#[trigger] old(items)@[k]).coll is None;
        proof {
            assert(emodels(queue@) =~= emodels(old(queue)@) + emitted);
            assert forall|s_out: Seq<ObjectI>, ev: Seq<EventI>, c_out: Seq<ContactEntryI>, fuel: nat|
                #[trigger] tick_from::<I, B>(
                integ,
                omodels(items@),
                its,
                centries(self.contacts@),
                s_out,
                ev,
                c_out,
                fuel,
            ) implies exists|f2: nat|
                tick_from::<I, B>(g0, m_start, its, c_start, s_out, emitted + ev, c_out, f2) by {
                assert(emitted + ev =~= ev);
                assert(tick_from::<I, B>(
                    g0,
                    m_start,
                    its,
                    c_start,
                    s_out,
                    emitted + ev,
                    c_out,
                    fuel,
                ));
            }
        }
        loop
            invariant_except_break
                forall|s_out: Seq<ObjectI>, ev: Seq<EventI>, c_out: Seq<ContactEntryI>, fuel: nat|
                    #[trigger] tick_from::<I, B>(
                        integ,
                        omodels(items@),
                        its,
                        centries(self.contacts@),
                        s_out,
                        ev,
                        c_out,
                        fuel,
                    ) ==> exists|f2: nat|
                        tick_from::<I, B>(
                            g0,
                            m_start,
                            its,
                            c_start,
                            s_out,
                            emitted + ev,
                            c_out,
                            f2,
                        ),
            invariant
                map@.len() == old(items)@.len(),
                forall|k: int|
                    0 <= k < map@.len() ==> (#[trigger] map@[k]).0 == old(items)@[k].id && map@[k].1 as int == k,
                tick_frame(old(items)@, items@),
                ids_unique(items@),
                ids_unique(old(items)@),
                old(queue)@.is_prefix_of(queue@),
                all_none == (forall|k: int|
                    0 <= k < old(items)@.len() ==> (#[trigger] old(items)@[k]).coll is None),
                all_none ==> queue@ == old(queue)@,
                emodels(queue@) == emodels(old(queue)@) + emitted,
                its == old(self).iterations as nat,
                self.timestep == old(self).timestep,
                self.iterations == old(self).iterations,
            ensures
                tick_frame(old(items)@, items@),
                ids_unique(items@),
                old(queue)@.is_prefix_of(queue@),
                all_none ==> queue@ == old(queue)@,
                emodels(queue@) == emodels(old(queue)@) + emitted,
                exists|f2: nat|
                    tick_from::<I, B>(
                        g0,
                        m_start,
                        its,
                        c_start,
                        omodels(items@),
                        emitted,
                        centries(self.contacts@),
                        f2,
                    ),
                self.timestep == old(self).timestep,
                self.iterations == old(self).iterations,
            decreases integ.substeps_left(),
        {
            let ghost items_pre = items@;
            let ghost integ_pre = integ;
            let ghost c_pre = centries(self.contacts@);
            let ghost emitted_pre = emitted;
            let st = integ.substep(items);
            proof {
                assert(tick_frame(old(items)@, items@));
                assert forall|k1: int, k2: int| 0 <= k1 < k2 < items@.len() implies items@[k1].id
                    != items@[k2].id by {
                    assert(items_pre[k1].id != items_pre[k2].id);
                }
                assert(ids_unique(items@));
            }
            if let IntegratorState::Complete = st {
                proof {
                    assert(integ_pre.substeps_left() == 0);
                    assert(omodels(items@) == omodels(items_pre));
                    lemma_tick_base::<I, B>(integ_pre, omodels(items_pre), its, c_pre);
                    let f2 = choose|f2: nat|
                        tick_from::<I, B>(
                            g0,
                            m_start,
                            its,
                            c_start,
                            omodels(items_pre),
                            emitted_pre + Seq::<EventI>::empty(),
                            c_pre,
                            f2,
                        );
                    assert(emitted_pre + Seq::<EventI>::empty() =~= emitted_pre);
                    assert(tick_from::<I, B>(
                        g0,
                        m_start,
                        its,
                        c_start,
                        omodels(items@),
                        emitted,
                        centries(self.contacts@),
                        f2,
                    ));
                }
                break ;
            }
            let ghost madv = omodels(items@);
            proof {
                assert(!(st is Complete) && st is NeedsDerivatives);
                assert(integ_pre.substeps_left() > 0);
                assert(integ == integ_pre.stepped());
                lemma_advance_model(integ_pre, items_pre, items@);
                assert(madv == advance(integ_pre, omodels(items_pre)));
            }
            let ghost items_sub = items@;
            let ghost qpre = queue@;
            self.collision_pass::<B>(items, queue, &map);
            proof {
                let cs = collidables_of(madv);
                let cm = confirmed_contacts(madv, cs, B::pairs_spec(cs));
                assert(centries(self.contacts@) == cm);
                assert(omodels(items@) == resolve_iters(madv, cm, its));
                emitted = emitted + all_events(cm);
                assert((emodels(old(queue)@) + emitted_pre) + all_events(cm) =~= emodels(
                    old(queue)@,
                ) + (emitted_pre + all_events(cm)));
                assert(old(queue)@.is_prefix_of(queue@)) by {
                    assert forall|i: int| 0 <= i < old(queue)@.len() implies queue@[i] == old(
                        queue,
                    )@[i] by {
                        assert(qpre[i] == old(queue)@[i]);
                        assert(queue@[i] == qpre[i]);
                    }
                    assert(queue@.subrange(0, old(queue)@.len() as int) =~= old(queue)@);
                }
                assert forall|k1: int, k2: int| 0 <= k1 < k2 < items@.len() implies items@[k1].id
                    != items@[k2].id by {
                    assert(items_sub[k1].id != items_sub[k2].id);
                }
                assert(ids_unique(items@));
                assert(tick_frame(old(items)@, items@));
                if all_none {
                    assert(tick_frame(old(items)@, items_sub));
                    assert forall|k: int| 0 <= k < items_sub.len() implies (
                    #[trigger] items_sub[k]).coll is None by {
                        assert((old(items)@[k]).coll is None);
                    }
                    assert(queue@ == qpre);
                }
                // the invariant holds again: one more substep folded in front
                lemma_tick_extend::<I, B>(
                    integ_pre,
                    omodels(items_pre),
                    its,
                    c_pre,
                    g0,
                    m_start,
                    c_start,
                    emitted_pre,
                    emitted,
                    omodels(items@),
                    cm,
                );
            }
        }
        proof {
            let f2 = choose|f2: nat|
                tick_from::<I, B>(
                    g0,
                    m_start,
                    its,
                    c_start,
                    omodels(items@),
                    emitted,
                    centries(self.contacts@),
                    f2,
                );
            assert(g0.fresh(old(self).timestep@));
            assert(tick_from::<I, B>(
                g0,
                omodels(old(items)@),
                old(self).iterations as nat,
                centries(old(self).contacts@),
                omodels(items@),
                emitted,
                centries(self.contacts@),
                f2,
            ));
        }
    }
}

} // verus!
