//! The input cache and the object space.

use moleengine::inputcache::{InputCache, KeyState};
use moleengine::space::Space;

#[test]
fn tracked_keys_start_released() {
    let mut cache = InputCache::new();
    cache.track_keys(&vec![5, 7]);
    let (state, age) = cache.get_key_state(5).expect("tracked");
    assert_eq!(state, KeyState::Released);
    assert_eq!(age, 0);
    assert!(!cache.is_key_pressed(5, None));
    assert!(cache.get_key_state(99).is_none());
}

#[test]
fn press_and_release_flip_the_state_and_reset_the_age() {
    let mut cache = InputCache::new();
    cache.track_keys(&vec![5]);
    cache.update_ages();
    cache.handle_keyboard(Some(5), true);
    assert!(cache.is_key_pressed(5, None));
    let (state, age) = cache.get_key_state(5).expect("tracked");
    assert_eq!(state, KeyState::Pressed);
    assert_eq!(age, 0);
    cache.handle_keyboard(Some(5), false);
    assert!(!cache.is_key_pressed(5, None));
    let (_, age) = cache.get_key_state(5).expect("tracked");
    assert_eq!(age, 0);
}

#[test]
fn repeated_presses_keep_the_age() {
    let mut cache = InputCache::new();
    cache.track_keys(&vec![3]);
    cache.handle_keyboard(Some(3), true);
    cache.update_ages();
    cache.update_ages();
    // a second press event while already pressed changes nothing
    cache.handle_keyboard(Some(3), true);
    let (state, age) = cache.get_key_state(3).expect("tracked");
    assert_eq!(state, KeyState::Pressed);
    assert_eq!(age, 2);
}

#[test]
fn age_limits_bound_key_freshness() {
    let mut cache = InputCache::new();
    cache.track_keys(&vec![8]);
    cache.handle_keyboard(Some(8), true);
    cache.update_ages();
    assert!(cache.is_key_pressed(8, None));
    assert!(cache.is_key_pressed(8, Some(1)));
    assert!(!cache.is_key_pressed(8, Some(0)));
}

#[test]
fn retracking_resets_a_pressed_key() {
    let mut cache = InputCache::new();
    cache.track_keys(&vec![4, 6]);
    cache.handle_keyboard(Some(4), true);
    cache.handle_keyboard(Some(6), true);
    cache.update_ages();
    cache.track_keys(&vec![4]);
    // the listed key is reset; the other keeps its entry
    let (state, age) = cache.get_key_state(4).expect("tracked");
    assert_eq!(state, KeyState::Released);
    assert_eq!(age, 0);
    let (state6, age6) = cache.get_key_state(6).expect("tracked");
    assert_eq!(state6, KeyState::Pressed);
    assert_eq!(age6, 1);
}

#[test]
fn untracked_and_empty_events_change_nothing() {
    let mut cache = InputCache::new();
    cache.track_keys(&vec![1]);
    cache.handle_keyboard(Some(2), true);
    cache.handle_keyboard(None, true);
    assert!(!cache.is_key_pressed(1, None));
    assert!(cache.get_key_state(2).is_none());
}

#[test]
fn a_space_hands_out_sequential_ids_up_to_capacity() {
    let mut space = Space::with_capacity(3);
    let a = space.create_object().expect("room").id();
    let b = space.create_object().expect("room").id();
    let c = space.create_object().expect("room").id();
    assert_eq!((a, b, c), (0, 1, 2));
    assert!(space.create_object().is_none());
}

#[test]
fn killed_slots_are_reused() {
    let mut space = Space::with_capacity(2);
    let a = space.create_object().expect("room").id();
    let _b = space.create_object().expect("room").id();
    assert!(space.create_object().is_none());
    space.kill_object(a);
    assert!(!space.is_enabled(a));
    let again = space.create_object().expect("slot freed").id();
    assert_eq!(again, a);
    assert!(space.is_enabled(again));
    assert!(space.is_reserved(again));
}

#[test]
fn capacity_is_fixed() {
    let space = Space::with_capacity(5);
    assert_eq!(space.capacity(), 5);
}

#[test]
fn a_pool_reserves_a_contiguous_run() {
    let mut space = Space::with_capacity(6);
    let pool = space.create_pool(3).expect("room");
    assert_eq!((pool.start, pool.end), (0, 4));
    // pooled slots are reserved ahead of time but not yet live
    assert!(space.is_reserved(0));
    assert!(!space.is_enabled(0));
    // ad-hoc objects come after the pool's run
    let key = space.create_object().expect("room");
    assert_eq!(key.id(), 4);
}

#[test]
fn pool_spawning_fills_and_reuses_slots() {
    let mut space = Space::with_capacity(4);
    let pool = space.create_pool(1).expect("room");
    let a = pool.spawn(&mut space).expect("slot").id();
    let b = pool.spawn(&mut space).expect("slot").id();
    assert_eq!((a, b), (0, 1));
    // the pool bounds how many of its objects are live at once
    assert!(pool.spawn(&mut space).is_none());
    space.kill_object(a);
    // killing frees the slot, but also its reservation: a pooled
    // respawn needs the slot reserved again
    assert!(!space.is_enabled(a));
}

#[test]
fn a_pool_larger_than_the_room_left_is_refused() {
    let mut space = Space::with_capacity(3);
    assert!(space.create_pool(5).is_none());
    assert!(space.create_pool(3).is_none());
    assert!(space.create_pool(2).is_some());
}

#[test]
fn enabled_ids_lists_the_live_objects() {
    let mut space = Space::with_capacity(4);
    let a = space.create_object().expect("room").id();
    let b = space.create_object().expect("room").id();
    let c = space.create_object().expect("room").id();
    space.kill_object(b);
    let ids = space.enabled_ids();
    assert_eq!(ids, vec![a, c]);
}
