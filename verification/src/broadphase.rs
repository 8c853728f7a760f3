//! Broad phase: cheap candidate filtering before exact intersection.
//!
//! A strategy maps the collidable objects to a list of index pairs.
//! The trait contract makes every strategy deterministic (the result is
//! a pure function of the input), well formed (each pair is two distinct
//! indices, no pair repeats in either order), and complete: any two
//! objects whose bounding circles overlap must appear as a candidate.
//! False positives are allowed and are filtered by the narrow phase;
//! a false negative would be a missed collision, which the contract
//! rules out.

use vstd::prelude::*;

use crate::collider::{shape_bound_radius, Collider, ShapeI};
use crate::vec2::{Pose, PoseI};

verus! {

/// Ghost mirror of a collidable object.
pub ghost struct CollidableI {
    pub id: int,
    pub pose: PoseI,
    pub shape: ShapeI,
}

/// The collidable part of an object: its id, pose and collider.
#[derive(Clone, Copy, Debug)]
pub struct Collidable {
    pub id: u64,
    pub tr: Pose,
    pub coll: Collider,
}

impl View for Collidable {
    type V = CollidableI;

    open spec fn view(&self) -> CollidableI {
        CollidableI { id: self.id as int, pose: self.tr@, shape: self.coll@ }
    }
}

/// The ghost mirrors of a sequence of collidables.
pub open spec fn models(s: Seq<Collidable>) -> Seq<CollidableI> {
    s.map_values(|c: Collidable| c@)
}

/// The bounding circles of two collidables overlap or touch, in exact
/// integer arithmetic over raw counts.
pub open spec fn bounds_overlap(a: CollidableI, b: CollidableI) -> bool {
    let dx = b.pose.pos.x - a.pose.pos.x;
    let dy = b.pose.pos.y - a.pose.pos.y;
    let rs = shape_bound_radius(a.shape) + shape_bound_radius(b.shape);
    dx * dx + dy * dy <= rs * rs
}

/// Each candidate pair is two distinct indices below `n`, ordered low
/// to high, and no pair appears twice.
pub open spec fn pairs_wf(ps: Seq<(usize, usize)>, n: int) -> bool {
    &&& forall|k: int|
        0 <= k < ps.len() ==> (#[trigger] ps[k]).0 < ps[k].1 && (ps[k].1 as int) < n
    &&& forall|k1: int, k2: int| 0 <= k1 < k2 < ps.len() ==> ps[k1] != ps[k2]
}

/// No false negatives: objects whose bounding circles overlap appear.
pub open spec fn pairs_complete(ps: Seq<(usize, usize)>, items: Seq<CollidableI>) -> bool {
    forall|i: int, j: int|
        0 <= i < j < items.len() && bounds_overlap(items[i], items[j]) ==> ps.contains(
            (i as usize, j as usize),
        )
}

/// A pluggable candidate-pair strategy.
pub trait BroadPhase {
    /// The pairs the strategy produces, as a pure function of the
    /// input: a strategy is deterministic by contract.
    spec fn pairs_spec(items: Seq<CollidableI>) -> Seq<(usize, usize)>;

    /// Produce the candidate pairs for a slice of collidables.
    fn pairs(items: &Vec<Collidable>) -> (r: Vec<(usize, usize)>)
        ensures
            r@ == Self::pairs_spec(models(items@)),
            pairs_wf(r@, items@.len() as int),
            pairs_complete(r@, models(items@)),
    ;
}

/// Broad-phase completeness for circles: any two circles whose centers
/// lie within the sum of their radii of each other appear among the
/// candidate pairs of every strategy that meets the `pairs` contract —
/// a missed true collision cannot happen.
pub proof fn lemma_circle_pair_is_candidate(
    ps: Seq<(usize, usize)>,
    items: Seq<CollidableI>,
    i: int,
    j: int,
    r1: int,
    r2: int,
)
    requires
        pairs_complete(ps, items),
        0 <= i < j < items.len(),
        items[i].shape == (ShapeI::Circle { r: r1 }),
        items[j].shape == (ShapeI::Circle { r: r2 }),
        ({
            let dx = items[j].pose.pos.x - items[i].pose.pos.x;
            let dy = items[j].pose.pos.y - items[i].pose.pos.y;
            dx * dx + dy * dy <= (r1 + r2) * (r1 + r2)
        }),
    ensures
        ps.contains((i as usize, j as usize)),
{
    assert(shape_bound_radius(items[i].shape) == r1);
    assert(shape_bound_radius(items[j].shape) == r2);
    assert(bounds_overlap(items[i], items[j]));
}

/// All pairs `(i, j)` with `i < j < n`, emitted row by row starting at
/// the pair `(i, j)`.
pub open spec fn all_pairs_from(i: nat, j: nat, n: nat) -> Seq<(usize, usize)>
    decreases n - i, n + 1 - j,
{
    if i >= n {
        Seq::empty()
    } else if j >= n {
        all_pairs_from(i + 1, i + 2, n)
    } else if j <= i {
        Seq::empty()  // never reached from a well-formed start
    } else {
        seq![(i as usize, j as usize)] + all_pairs_from(i, j + 1, n)
    }
}

/// What the row-by-row enumeration contains.
proof fn lemma_all_pairs_elems(i: nat, j: nat, n: nat, p: (usize, usize))
    requires
        i < j,
        n <= usize::MAX,
    ensures
        all_pairs_from(i, j, n).contains(p) <==> {
            let a = p.0 as nat;
            let b = p.1 as nat;
            (a == i && j <= b < n) || (i < a && a < b && b < n)
        },
    decreases n - i, n + 1 - j,
{
    let s = all_pairs_from(i, j, n);
    if i >= n {
        assert(!s.contains(p));
    } else if j >= n {
        lemma_all_pairs_elems(i + 1, i + 2, n, p);
    } else {
        let rest = all_pairs_from(i, j + 1, n);
        lemma_all_pairs_elems(i, j + 1, n, p);
        assert(s == seq![(i as usize, j as usize)] + rest);
        if p == (i as usize, j as usize) {
            assert(s[0] == p);
            assert(s.contains(p));
        }
        if s.contains(p) && p != (i as usize, j as usize) {
            let k = choose|k: int| 0 <= k < s.len() && s[k] == p;
            assert(rest[k - 1] == p);
            assert(rest.contains(p));
        }
        if rest.contains(p) {
            let k = choose|k: int| 0 <= k < rest.len() && rest[k] == p;
            assert(s[k + 1] == p);
            assert(s.contains(p));
        }
    }
}

/// The row-by-row enumeration never repeats a pair.
proof fn lemma_all_pairs_distinct(i: nat, j: nat, n: nat)
    requires
        i < j,
        n <= usize::MAX,
    ensures
        forall|k1: int, k2: int|
            0 <= k1 < k2 < all_pairs_from(i, j, n).len() ==> all_pairs_from(i, j, n)[k1]
                != all_pairs_from(i, j, n)[k2],
    decreases n - i, n + 1 - j,
{
    let s = all_pairs_from(i, j, n);
    if i >= n {
    } else if j >= n {
        lemma_all_pairs_distinct(i + 1, i + 2, n);
        assert(s == all_pairs_from(i + 1, i + 2, n));
    } else {
        let rest = all_pairs_from(i, j + 1, n);
        lemma_all_pairs_distinct(i, j + 1, n);
        assert(s == seq![(i as usize, j as usize)] + rest);
        assert forall|k1: int, k2: int| 0 <= k1 < k2 < s.len() implies s[k1] != s[k2] by {
            if k1 == 0 {
                assert(s[0] == (i as usize, j as usize));
                assert(s[k2] == rest[k2 - 1]);
                assert(rest.contains(rest[k2 - 1]));
                lemma_all_pairs_elems(i, j + 1, n, rest[k2 - 1]);
            } else {
                assert(s[k1] == rest[k1 - 1]);
                assert(s[k2] == rest[k2 - 1]);
            }
        }
    }
}

/// The reference strategy: every pair of indices is a candidate.
/// Quadratic in the object count and the correctness baseline for
/// smarter strategies.
pub struct AllPairs;

impl BroadPhase for AllPairs {
    open spec fn pairs_spec(items: Seq<CollidableI>) -> Seq<(usize, usize)> {
        all_pairs_from(0, 1, items.len())
    }

    fn pairs(items: &Vec<Collidable>) -> (r: Vec<(usize, usize)>)
        ensures
            r@ == Self::pairs_spec(models(items@)),
            pairs_wf(r@, items@.len() as int),
            pairs_complete(r@, models(items@)),
    {
        let n = items.len();
        let ghost nn = n as nat;
        let mut out: Vec<(usize, usize)> = Vec::new();
        let mut i: usize = 0;
        while i < n
            invariant
                i <= n,
                nn == n as nat,
                all_pairs_from(0, 1, nn) == out@ + all_pairs_from(i as nat, i as nat + 1, nn),
            decreases n - i,
        {
            let mut j: usize = i + 1;
            while j < n
                invariant
                    i < j,
                    i < n,
                    j <= n,
                    nn == n as nat,
                    all_pairs_from(0, 1, nn) == out@ + all_pairs_from(i as nat, j as nat, nn),
                decreases n - j,
            {
                proof {
                    assert(all_pairs_from(i as nat, j as nat, nn) == seq![(i, j)]
                        + all_pairs_from(i as nat, j as nat + 1, nn));
                    assert((out@ + seq![(i, j)]) + all_pairs_from(i as nat, j as nat + 1, nn)
                        =~= out@ + (seq![(i, j)] + all_pairs_from(i as nat, j as nat + 1, nn)));
                }
                out.push((i, j));
                j = j + 1;
            }
            proof {
                assert(all_pairs_from(i as nat, j as nat, nn) == all_pairs_from(
                    i as nat + 1,
                    i as nat + 2,
                    nn,
                ));
            }
            i = i + 1;
        }
        proof {
            assert(all_pairs_from(i as nat, i as nat + 1, nn) =~= Seq::<(usize, usize)>::empty());
            assert(out@ + Seq::<(usize, usize)>::empty() =~= out@);
            lemma_all_pairs_distinct(0, 1, nn);
            assert forall|k: int| 0 <= k < out@.len() implies (#[trigger] out@[k]).0 < out@[k].1
                && (out@[k].1 as int) < nn by {
                assert(out@.contains(out@[k]));
                lemma_all_pairs_elems(0, 1, nn, out@[k]);
            }
            assert forall|a: int, b: int|
                0 <= a < b < models(items@).len() && bounds_overlap(
                    models(items@)[a],
                    models(items@)[b],
                ) implies out@.contains((a as usize, b as usize)) by {
                lemma_all_pairs_elems(0, 1, nn, (a as usize, b as usize));
            }
        }
        out
    }
}

} // verus!
