//! The all-pairs broad-phase reference strategy.

use moleengine::broadphase::{AllPairs, BroadPhase, Collidable};
use moleengine::collider::Collider;
use moleengine::fx::Fx;
use moleengine::vec2::{Pose, Vec2};

fn fx(units: i64) -> Fx {
    Fx::from_units(units)
}

fn circle_at(id: u64, x: i64, y: i64, r: i64) -> Collidable {
    Collidable {
        id,
        tr: Pose::new(Vec2::new(fx(x), fx(y))),
        coll: Collider::new_circle(fx(r)),
    }
}

#[test]
fn no_pairs_below_two_objects() {
    let none: Vec<Collidable> = Vec::new();
    assert_eq!(AllPairs::pairs(&none), Vec::<(usize, usize)>::new());
    let one = vec![circle_at(7, 0, 0, 1)];
    assert_eq!(AllPairs::pairs(&one), Vec::<(usize, usize)>::new());
}

#[test]
fn every_pair_is_a_candidate() {
    let items = vec![
        circle_at(0, 0, 0, 1),
        circle_at(1, 100, 0, 1),
        circle_at(2, 0, 100, 1),
        circle_at(3, 100, 100, 1),
    ];
    let pairs = AllPairs::pairs(&items);
    assert_eq!(pairs, vec![(0, 1), (0, 2), (0, 3), (1, 2), (1, 3), (2, 3)]);
}

#[test]
fn near_circles_appear_among_candidates() {
    // centers within the sum of the radii: the pair must be a candidate
    let items = vec![circle_at(4, 0, 0, 2), circle_at(9, 3, 0, 2)];
    let pairs = AllPairs::pairs(&items);
    assert!(pairs.contains(&(0, 1)));
}
