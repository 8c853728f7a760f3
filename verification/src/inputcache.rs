//! A keyboard input state cache.
//!
//! Key events are fed in and the current state of every tracked key can
//! be polled from anywhere, which avoids complicated event piping.  A
//! key is identified by its plain key code; only keys added with
//! `track_keys` have their state stored.  Each entry carries an age:
//! how many update loops ago the state last flipped.

use vstd::prelude::*;

verus! {

/// The state of an individual key.
#[derive(Clone, Copy, Debug, PartialEq, Eq, Structural)]
pub enum KeyState {
    Released,
    Pressed,
}

/// One tracked key: its code, its state, and the age of that state.
pub type KeyEntry = (u32, KeyState, u32);

/// The cache knows this key.
pub open spec fn tracked_key(s: Seq<KeyEntry>, key: u32) -> bool {
    exists|k: int| 0 <= k < s.len() && (#[trigger] s[k]).0 == key
}

/// The row of a tracked key.
pub open spec fn key_row(s: Seq<KeyEntry>, key: u32) -> int {
    choose|k: int| 0 <= k < s.len() && (#[trigger] s[k]).0 == key
}

/// Every key code appears at most once.
pub open spec fn keys_unique(s: Seq<KeyEntry>) -> bool {
    forall|k1: int, k2: int| 0 <= k1 < k2 < s.len() ==> (#[trigger] s[k1]).0 != (#[trigger] s[k2]).0
}

/// A global input state cache to feed input events into and poll.
pub struct InputCache {
    keyboard: Vec<KeyEntry>,
}

impl View for InputCache {
    type V = Seq<KeyEntry>;

    closed spec fn view(&self) -> Seq<KeyEntry> {
        self.keyboard@
    }
}

impl InputCache {
    /// Create an empty input cache.
    pub fn new() -> (r: InputCache)
        ensures
            r@.len() == 0,
            keys_unique(r@),
    {
        InputCache { keyboard: Vec::new() }
    }

    /// Update the ages of tracked keys, saturating at the largest age.
    /// Call this every update loop.
    pub fn update_ages(&mut self)
        requires
            keys_unique(old(self)@),
        ensures
            keys_unique(final(self)@),
            final(self)@.len() == old(self)@.len(),
            forall|k: int|
                0 <= k < old(self)@.len() ==> {
                    let pre = #[trigger] old(self)@[k];
                    let post = final(self)@[k];
                    &&& post.0 == pre.0
                    &&& post.1 == pre.1
                    &&& post.2 as int == if pre.2 < u32::MAX {
                        pre.2 as int + 1
                    } else {
                        u32::MAX as int
                    }
                },
    {
        let n = self.keyboard.len();
        let mut i: usize = 0;
        while i < n
            invariant
                i <= n,
                self.keyboard@.len() == n as int,
                n as int == old(self)@.len(),
                keys_unique(self.keyboard@),
                forall|k: int| i as int <= k < n as int ==> self.keyboard@[k] == old(self)@[k],
                forall|k: int|
                    0 <= k < i as int ==> {
                        let pre = #[trigger] old(self)@[k];
                        let post = self.keyboard@[k];
                        &&& post.0 == pre.0
                        &&& post.1 == pre.1
                        &&& post.2 as int == if pre.2 < u32::MAX {
                            pre.2 as int + 1
                        } else {
                            u32::MAX as int
                        }
                    },
            decreases n - i,
        {
            let (key, state, age) = self.keyboard[i];
            let new_age = if age < u32::MAX {
                age + 1
            } else {
                age
            };
            self.keyboard.set(i, (key, state, new_age));
            i = i + 1;
        }
    }

    /// Add keys for tracking, each starting released with age zero.
    /// Only keys added with this method have their state stored; a key
    /// already tracked is reset.
    pub fn track_keys(&mut self, keys: &Vec<u32>)
        requires
            keys_unique(old(self)@),
        ensures
            keys_unique(final(self)@),
            forall|key: u32|
                keys@.contains(key) ==> tracked_key(final(self)@, key) && final(self)@[key_row(
                    final(self)@,
                    key,
                )] == (key, KeyState::Released, 0u32),
            forall|k: int|
                0 <= k < old(self)@.len() && !keys@.contains((#[trigger] old(self)@[k]).0)
                    ==> final(self)@[k] == old(self)@[k],
            forall|key: u32|
                tracked_key(final(self)@, key) ==> (tracked_key(old(self)@, key)
                    || keys@.contains(key)),
    {
        let n = keys.len();
        let mut i: usize = 0;
        while i < n
            invariant
                i <= n,
                n as int == keys@.len(),
                keys_unique(self@),
                old(self)@.len() <= self@.len(),
                forall|key: u32| #[trigger]
                    tracked_key(self@, key) ==> (tracked_key(old(self)@, key) || keys@.contains(
                        key,
                    )),
                forall|k: int|
                    0 <= k < old(self)@.len() && !keys@.contains((#[trigger] old(self)@[k]).0)
                        ==> self@[k] == old(self)@[k],
                forall|j: int|
                    0 <= j < i as int ==> tracked_key(self@, #[trigger] keys@[j]) && self@[key_row(
                        self@,
                        keys@[j],
                    )] == (keys@[j], KeyState::Released, 0u32),
            decreases n - i,
        {
            let ghost pre_call = self@;
            self.track_one(keys[i]);
            proof {
                assert(keys@.contains(keys@[i as int]));
                assert forall|k: int|
                    0 <= k < old(self)@.len() && !keys@.contains(
                        (#[trigger] old(self)@[k]).0,
                    ) implies self@[k] == old(self)@[k] by {
                    assert(pre_call[k] == old(self)@[k]);
                    assert((pre_call[k]).0 != keys@[i as int]);
                }
                assert forall|j: int| 0 <= j < i as int + 1 implies tracked_key(
                    self@,
                    #[trigger] keys@[j],
                ) && self@[key_row(self@, keys@[j])] == (keys@[j], KeyState::Released, 0u32) by {
                    if keys@[j] == keys@[i as int] {
                        assert(self@[key_row(self@, keys@[i as int])] == (
                            keys@[i as int],
                            KeyState::Released,
                            0u32,
                        ));
                    } else {
                        assert(j < i as int);
                        let r_pre = key_row(pre_call, keys@[j]);
                        assert(tracked_key(pre_call, keys@[j]));
                        assert(0 <= r_pre < pre_call.len() && (pre_call[r_pre]).0 == keys@[j]);
                        assert(pre_call[r_pre] == (keys@[j], KeyState::Released, 0u32));
                        assert(self@[r_pre] == pre_call[r_pre]);
                        assert(tracked_key(self@, keys@[j]));
                        let r_post = key_row(self@, keys@[j]);
                        assert(0 <= r_post < self@.len() && (self@[r_post]).0 == keys@[j]);
                        if r_post != r_pre {
                            assert(false);
                        }
                    }
                }
            }
            i = i + 1;
        }
        proof {
            assert forall|key: u32| keys@.contains(key) implies tracked_key(final(self)@, key)
                && final(self)@[key_row(final(self)@, key)] == (
            key,
            KeyState::Released,
            0u32,
            ) by {
                let k = choose|k: int| 0 <= k < keys@.len() && keys@[k] == key;
                assert(tracked_key(self@, keys@[k]));
                assert(self@[key_row(self@, keys@[k])] == (keys@[k], KeyState::Released, 0u32));
            }
        }
    }

    /// Track one key, resetting it if it is already tracked.
    fn track_one(&mut self, key: u32)
        requires
            keys_unique(old(self)@),
        ensures
            keys_unique(final(self)@),
            tracked_key(final(self)@, key),
            final(self)@[key_row(final(self)@, key)] == (key, KeyState::Released, 0u32),
            old(self)@.len() <= final(self)@.len(),
            forall|k: int|
                0 <= k < old(self)@.len() && (#[trigger] old(self)@[k]).0 != key
                    ==> final(self)@[k] == old(self)@[k],
            forall|other: u32| #[trigger]
                tracked_key(final(self)@, other) ==> (tracked_key(old(self)@, other) || other
                    == key),
            forall|other: u32| #[trigger]
                tracked_key(old(self)@, other) ==> tracked_key(final(self)@, other),
    {
        let n = self.keyboard.len();
        let mut i: usize = 0;
        while i < n
            invariant
                i <= n,
                self.keyboard@.len() == n as int,
                self == old(self),
                keys_unique(self.keyboard@),
                forall|k: int| 0 <= k < i as int ==> (#[trigger] self.keyboard@[k]).0 != key,
            decreases n - i,
        {
            if self.keyboard[i].0 == key {
                let ghost pre = self.keyboard@;
                self.keyboard.set(i, (key, KeyState::Released, 0));
                proof {
                    assert forall|k1: int, k2: int|
                        0 <= k1 < k2 < self.keyboard@.len() implies (
                    #[trigger] self.keyboard@[k1]).0 != (#[trigger] self.keyboard@[k2]).0 by {
                        assert((pre[k1]).0 != (pre[k2]).0);
                        assert((self.keyboard@[k1]).0 == (pre[k1]).0);
                        assert((self.keyboard@[k2]).0 == (pre[k2]).0);
                    }
                    assert(keys_unique(self.keyboard@));
                    assert((self.keyboard@[i as int]).0 == key);
                    assert forall|other: u32| #[trigger]
                        tracked_key(old(self)@, other) implies tracked_key(
                        self.keyboard@,
                        other,
                    ) by {
                        let k = key_row(old(self)@, other);
                        if k == i as int {
                            assert((self.keyboard@[i as int]).0 == other);
                        } else {
                            assert((self.keyboard@[k]).0 == other);
                        }
                    }
                }
                return ;
            }
            i = i + 1;
        }
        self.keyboard.push((key, KeyState::Released, 0));
        proof {
            assert((self.keyboard@[n as int]).0 == key);
            assert(keys_unique(self.keyboard@));
            assert forall|other: u32| #[trigger]
                tracked_key(old(self)@, other) implies tracked_key(self.keyboard@, other) by {
                let k = key_row(old(self)@, other);
                assert((self.keyboard@[k]).0 == other);
            }
        }
    }

    /// The state of a key along with its age, or nothing if the key is
    /// not tracked.
    pub fn get_key_state(&self, key: u32) -> (r: Option<(KeyState, u32)>)
        requires
            keys_unique(self@),
        ensures
            match r {
                Some(e) => tracked_key(self@, key) && {
                    let row = self@[key_row(self@, key)];
                    e.0 == row.1 && e.1 == row.2
                },
                None => !tracked_key(self@, key),
            },
    {
        let n = self.keyboard.len();
        let mut i: usize = 0;
        while i < n
            invariant
                i <= n,
                self.keyboard@.len() == n as int,
                keys_unique(self.keyboard@),
                forall|k: int| 0 <= k < i as int ==> (#[trigger] self.keyboard@[k]).0 != key,
            decreases n - i,
        {
            let (code, state, age) = self.keyboard[i];
            if code == key {
                proof {
                    assert((self.keyboard@[i as int]).0 == key);
                    let row = key_row(self@, key);
                    assert((self@[row]).0 == key);
                    if row != i as int {
                        assert(false);
                    }
                }
                return Some((state, age));
            }
            i = i + 1;
        }
        None
    }

    /// Whether the key is currently pressed, and — if an age limit is
    /// given — has been for no more update loops than that.  The key
    /// must be tracked.
    pub fn is_key_pressed(&self, key: u32, age_limit: Option<u32>) -> (r: bool)
        requires
            keys_unique(self@),
            tracked_key(self@, key),
        ensures
            ({
                let row = self@[key_row(self@, key)];
                r == (row.1 == KeyState::Pressed && match age_limit {
                    Some(al) => row.2 <= al,
                    None => true,
                })
            }),
    {
        let st = self.get_key_state(key);
        match st {
            Some((state, age)) => {
                let pressed = match state {
                    KeyState::Pressed => true,
                    KeyState::Released => false,
                };
                match age_limit {
                    Some(al) => pressed && age <= al,
                    None => pressed,
                }
            },
            None => {
                proof {
                    assert(false);
                }
                false
            },
        }
    }

    /// Track the effect of one keyboard event: a key code (if the event
    /// carried one) and whether it was pressed or released.  A tracked
    /// key flips its state and resets its age; anything else changes
    /// nothing.
    pub fn handle_keyboard(&mut self, code: Option<u32>, pressed: bool)
        requires
            keys_unique(old(self)@),
        ensures
            keys_unique(final(self)@),
            final(self)@.len() == old(self)@.len(),
            forall|k: int|
                0 <= k < old(self)@.len() ==> {
                    let pre = #[trigger] old(self)@[k];
                    let post = final(self)@[k];
                    &&& post.0 == pre.0
                    &&& if code == Some(pre.0) && pressed && pre.1 == KeyState::Released {
                        post.1 == KeyState::Pressed && post.2 == 0
                    } else if code == Some(pre.0) && !pressed && pre.1 == KeyState::Pressed {
                        post.1 == KeyState::Released && post.2 == 0
                    } else {
                        post == pre
                    }
                },
    {
        let c: u32 = match code {
            Some(c) => c,
            None => {
                return ;
            },
        };
        let n = self.keyboard.len();
        let mut i: usize = 0;
        while i < n
            invariant
                i <= n,
                self.keyboard@.len() == n as int,
                n as int == old(self)@.len(),
                code == Some(c),
                keys_unique(self.keyboard@),
                forall|k: int| i as int <= k < n as int ==> self.keyboard@[k] == old(self)@[k],
                forall|k: int|
                    0 <= k < i as int ==> {
                        let pre = #[trigger] old(self)@[k];
                        let post = self.keyboard@[k];
                        &&& post.0 == pre.0
                        &&& if code == Some(pre.0) && pressed && pre.1 == KeyState::Released {
                            post.1 == KeyState::Pressed && post.2 == 0
                        } else if code == Some(pre.0) && !pressed && pre.1 == KeyState::Pressed {
                            post.1 == KeyState::Released && post.2 == 0
                        } else {
                            post == pre
                        }
                    },
            decreases n - i,
        {
            let (key, state, _age) = self.keyboard[i];
            if key == c {
                if pressed {
                    if let KeyState::Released = state {
                        self.keyboard.set(i, (key, KeyState::Pressed, 0));
                    }
                } else {
                    if let KeyState::Pressed = state {
                        self.keyboard.set(i, (key, KeyState::Released, 0));
                    }
                }
            }
            i = i + 1;
        }
    }
}

} // verus!
