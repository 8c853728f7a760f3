//! An environment where simulated objects live.
//!
//! The space hands out object ids and keeps two membership sets over a
//! fixed capacity: reserved slots and enabled (alive) slots.  A slot is
//! reserved when an object is created and never handed out again while
//! it stays reserved, so ids coming from one space are unique — exactly
//! the precondition the collision solver puts on its object slice.

use vstd::prelude::*;

verus! {

/// A handle to an object that was just created in a space.  Only given
/// out during object creation, so holding one proves the id was free.
#[derive(Clone, Copy, Debug, PartialEq, Eq, Structural)]
pub struct MasterKey {
    pub(crate) id: usize,
}

impl View for MasterKey {
    type V = int;

    closed spec fn view(&self) -> int {
        self.id as int
    }
}

impl MasterKey {
    /// The object id this key stands for.
    pub fn id(&self) -> (r: usize)
        ensures
            r as int == self@,
    {
        self.id
    }
}

/// A pool: a contiguous run of slots reserved ahead of time for one
/// kind of object.  Spawning from the pool enables a free slot; killing
/// a pooled object frees its slot for the next spawn.  The pool bounds
/// how many of its objects can be live at once.
#[derive(Clone, Copy, Debug, PartialEq, Eq, Structural)]
pub struct Pool {
    /// First slot of the pool's run.
    pub start: usize,
    /// One past the last slot of the pool's run.
    pub end: usize,
}

impl Pool {
    /// Spawn one object from the pool: the first of its slots that is
    /// not currently live.  Fails exactly when every slot of the pool
    /// is live.
    pub fn spawn(&self, space: &mut Space) -> (r: Option<MasterKey>)
        requires
            space_wf(old(space)@),
            self.start <= self.end,
            self.end as int <= old(space)@.capacity,
            forall|i: int| self.start as int <= i < self.end as int ==> old(space)@.reserved[i],
        ensures
            space_wf(final(space)@),
            final(space)@.capacity == old(space)@.capacity,
            final(space)@.reserved == old(space)@.reserved,
            match r {
                Some(key) => {
                    &&& self.start as int <= key@ < self.end as int
                    &&& !old(space)@.enabled[key@]
                    &&& forall|i: int| self.start as int <= i < key@ ==> old(space)@.enabled[i]
                    &&& final(space)@.enabled == old(space)@.enabled.update(key@, true)
                },
                None => {
                    &&& forall|i: int|
                        self.start as int <= i < self.end as int ==> old(space)@.enabled[i]
                    &&& final(space)@ == old(space)@
                },
            },
    {
        let mut i: usize = self.start;
        while i < self.end
            invariant
                self.start <= i <= self.end,
                space == old(space),
                space_wf(space@),
                self.end as int <= space@.capacity,
                forall|k: int| self.start as int <= k < self.end as int ==> space@.reserved[k],
                forall|k: int|
                    self.start as int <= k < i as int ==> (#[trigger] space@.enabled[k]),
            decreases self.end - i,
        {
            if !space.is_enabled(i) {
                space.enable_at(i);
                return Some(MasterKey { id: i });
            }
            i = i + 1;
        }
        None
    }
}

/// Ghost mirror of a space: the two membership sets and the high-water
/// mark of the id allocator.
pub ghost struct SpaceI {
    pub reserved: Seq<bool>,
    pub enabled: Seq<bool>,
    pub next: int,
    pub capacity: int,
}

/// An environment that reserves and hands out ids for objects, with a
/// hard capacity: spaces do not grow.
pub struct Space {
    reserved_ids: Vec<bool>,
    enabled_ids: Vec<bool>,
    next_obj_id: usize,
    capacity: usize,
}

impl View for Space {
    type V = SpaceI;

    closed spec fn view(&self) -> SpaceI {
        SpaceI {
            reserved: self.reserved_ids@,
            enabled: self.enabled_ids@,
            next: self.next_obj_id as int,
            capacity: self.capacity as int,
        }
    }
}

/// The space's internal bookkeeping is consistent: both sets cover the
/// capacity, enabled slots are reserved, and everything at or above the
/// allocator's high-water mark is free.
pub open spec fn space_wf(s: SpaceI) -> bool {
    &&& s.reserved.len() == s.capacity
    &&& s.enabled.len() == s.capacity
    &&& 0 <= s.next <= s.capacity
    &&& forall|i: int| 0 <= i < s.capacity && #[trigger] s.enabled[i] ==> s.reserved[i]
    &&& forall|i: int| s.next <= i < s.capacity ==> !(#[trigger] s.reserved[i])
}

impl Space {
    /// Create a space with a given maximum capacity; every slot starts
    /// free.
    pub fn with_capacity(capacity: usize) -> (r: Space)
        ensures
            space_wf(r@),
            r@.capacity == capacity as int,
            r@.next == 0,
            r@.reserved =~= Seq::new(capacity as nat, |i: int| false),
            r@.enabled =~= Seq::new(capacity as nat, |i: int| false),
    {
        let mut reserved_ids: Vec<bool> = Vec::new();
        let mut enabled_ids: Vec<bool> = Vec::new();
        let mut i: usize = 0;
        while i < capacity
            invariant
                i <= capacity,
                reserved_ids@.len() == i as int,
                enabled_ids@.len() == i as int,
                forall|k: int| 0 <= k < i as int ==> !(#[trigger] reserved_ids@[k]),
                forall|k: int| 0 <= k < i as int ==> !(#[trigger] enabled_ids@[k]),
            decreases capacity - i,
        {
            reserved_ids.push(false);
            enabled_ids.push(false);
            i = i + 1;
        }
        let r = Space { reserved_ids, enabled_ids, next_obj_id: 0, capacity };
        proof {
            assert(r@.reserved =~= Seq::new(capacity as nat, |i: int| false));
            assert(r@.enabled =~= Seq::new(capacity as nat, |i: int| false));
        }
        r
    }

    /// The capacity of this space.
    pub fn capacity(&self) -> (r: usize)
        ensures
            r as int == self@.capacity,
    {
        self.capacity
    }

    /// Whether a slot is reserved.
    pub fn is_reserved(&self, id: usize) -> (r: bool)
        requires
            space_wf(self@),
            id < self@.capacity,
        ensures
            r == self@.reserved[id as int],
    {
        self.reserved_ids[id]
    }

    /// Whether a slot holds a live object.
    pub fn is_enabled(&self, id: usize) -> (r: bool)
        requires
            space_wf(self@),
            id < self@.capacity,
        ensures
            r == self@.enabled[id as int],
    {
        self.enabled_ids[id]
    }

    /// Enable one already-reserved slot.
    pub(crate) fn enable_at(&mut self, id: usize)
        requires
            space_wf(old(self)@),
            id < old(self)@.capacity,
            old(self)@.reserved[id as int],
        ensures
            space_wf(final(self)@),
            final(self)@.enabled == old(self)@.enabled.update(id as int, true),
            final(self)@.reserved == old(self)@.reserved,
            final(self)@.capacity == old(self)@.capacity,
            final(self)@.next == old(self)@.next,
    {
        self.enabled_ids.set(id, true);
    }

    /// Reserve and enable one slot.
    fn create_object_at(&mut self, id: usize)
        requires
            space_wf(old(self)@),
            id < old(self)@.capacity,
        ensures
            final(self)@.reserved == old(self)@.reserved.update(id as int, true),
            final(self)@.enabled == old(self)@.enabled.update(id as int, true),
            final(self)@.capacity == old(self)@.capacity,
            final(self)@.next == old(self)@.next,
    {
        self.reserved_ids.set(id, true);
        self.enabled_ids.set(id, true);
    }

    /// Create an object in this space.  Returns the key of a slot that
    /// was free and is now reserved and enabled, or nothing exactly
    /// when every slot is already reserved.
    pub fn create_object(&mut self) -> (r: Option<MasterKey>)
        requires
            space_wf(old(self)@),
        ensures
            space_wf(final(self)@),
            final(self)@.capacity == old(self)@.capacity,
            match r {
                Some(key) => {
                    &&& key@ < old(self)@.capacity
                    &&& !old(self)@.reserved[key@]
                    &&& final(self)@.reserved == old(self)@.reserved.update(key@, true)
                    &&& final(self)@.enabled == old(self)@.enabled.update(key@, true)
                    &&& if old(self)@.next < old(self)@.capacity {
                        // fresh ids are handed out sequentially
                        key@ == old(self)@.next && final(self)@.next == old(self)@.next + 1
                    } else {
                        // then the smallest dead slot is reused
                        final(self)@.next == old(self)@.next && forall|i: int|
                            0 <= i < key@ ==> old(self)@.reserved[i]
                    }
                },
                None => {
                    &&& forall|i: int|
                        0 <= i < old(self)@.capacity ==> old(self)@.reserved[i]
                    &&& final(self)@ == old(self)@
                },
            },
    {
        if self.next_obj_id < self.capacity {
            let id = self.next_obj_id;
            self.next_obj_id = self.next_obj_id + 1;
            self.create_object_at(id);
            Some(MasterKey { id })
        } else {
            // find a dead slot to reuse
            let mut i: usize = 0;
            while i < self.capacity
                invariant
                    i <= self.capacity,
                    self == old(self),
                    space_wf(self@),
                    self@.next == self@.capacity,
                    self.reserved_ids@.len() == self.capacity as int,
                    forall|k: int| 0 <= k < i as int ==> #[trigger] self.reserved_ids@[k],
                decreases self.capacity - i,
            {
                if !self.reserved_ids[i] {
                    self.create_object_at(i);
                    return Some(MasterKey { id: i });
                }
                i = i + 1;
            }
            None
        }
    }

    /// The ids of all live objects, in increasing order.
    pub fn enabled_ids(&self) -> (r: Vec<usize>)
        requires
            space_wf(self@),
        ensures
            forall|k: int|
                0 <= k < r@.len() ==> (#[trigger] r@[k]) < self@.capacity
                    && self@.enabled[r@[k] as int],
            forall|i: int|
                0 <= i < self@.capacity && #[trigger] self@.enabled[i] ==> r@.contains(i as usize),
    {
        let mut r: Vec<usize> = Vec::new();
        let mut i: usize = 0;
        while i < self.capacity
            invariant
                i <= self.capacity,
                space_wf(self@),
                self.enabled_ids@.len() == self.capacity as int,
                forall|k: int|
                    0 <= k < r@.len() ==> (#[trigger] r@[k]) < self.capacity
                        && self.enabled_ids@[r@[k] as int],
                forall|j: int|
                    0 <= j < i as int && #[trigger] self.enabled_ids@[j] ==> r@.contains(
                        j as usize,
                    ),
            decreases self.capacity - i,
        {
            let ghost r_pre = r@;
            if self.enabled_ids[i] {
                r.push(i);
                proof {
                    assert(r@[r@.len() - 1] == i as usize);
                    assert forall|j: int|
                        0 <= j < i as int + 1 && #[trigger] self.enabled_ids@[j] implies r@
                        .contains(j as usize) by {
                        if j < i as int {
                            let k = choose|k: int| 0 <= k < r_pre.len() && r_pre[k] == (j as usize);
                            assert(r@[k] == (j as usize));
                        } else {
                            assert(r@[r@.len() - 1] == (j as usize));
                        }
                    }
                }
            }
            i = i + 1;
        }
        r
    }

    /// Reserve a contiguous run of slots ahead of time for a pool of
    /// one kind of object.  Fails exactly when there is not enough
    /// continuous room left in the space.
    pub fn create_pool(&mut self, size: usize) -> (r: Option<Pool>)
        requires
            space_wf(old(self)@),
        ensures
            space_wf(final(self)@),
            final(self)@.capacity == old(self)@.capacity,
            match r {
                Some(p) => {
                    &&& p.start as int == old(self)@.next
                    &&& p.end as int == p.start as int + size as int + 1
                    &&& p.end as int <= old(self)@.capacity
                    &&& final(self)@.next == p.end as int
                    &&& final(self)@.enabled == old(self)@.enabled
                    &&& forall|i: int|
                        0 <= i < old(self)@.capacity ==> final(self)@.reserved[i] == (old(
                            self,
                        )@.reserved[i] || p.start as int <= i < p.end as int)
                },
                None => {
                    &&& old(self)@.capacity - old(self)@.next < size as int + 1
                    &&& final(self)@ == old(self)@
                },
            },
    {
        let avail = self.capacity - self.next_obj_id;
        if size >= avail {
            return None;
        }
        let start = self.next_obj_id;
        let end = start + size + 1;
        self.next_obj_id = end;
        let mut i: usize = start;
        while i < end
            invariant
                start <= i <= end,
                end <= self.capacity,
                self.next_obj_id == end,
                self.capacity == old(self)@.capacity,
                self.reserved_ids@.len() == self.capacity as int,
                self.enabled_ids@ == old(self)@.enabled,
                self.enabled_ids@.len() == self.capacity as int,
                forall|j: int|
                    0 <= j < self.capacity as int && #[trigger] self.enabled_ids@[j]
                        ==> self.reserved_ids@[j],
                forall|j: int|
                    0 <= j < self.capacity as int ==> #[trigger] self.reserved_ids@[j] == (old(
                        self,
                    )@.reserved[j] || start as int <= j < i as int),
            decreases end - i,
        {
            self.reserved_ids.set(i, true);
            i = i + 1;
        }
        proof {
            assert forall|j: int|
                self.next_obj_id as int <= j < self.capacity as int implies !(
            #[trigger] self.reserved_ids@[j]) by {
                assert(!old(self)@.reserved[j]);
            }
        }
        Some(Pool { start, end })
    }

    /// Free a slot: the object is gone and its id may be reused.
    pub fn kill_object(&mut self, id: usize)
        requires
            space_wf(old(self)@),
            id < old(self)@.capacity,
        ensures
            space_wf(final(self)@),
            final(self)@.reserved == old(self)@.reserved.update(id as int, false),
            final(self)@.enabled == old(self)@.enabled.update(id as int, false),
            final(self)@.capacity == old(self)@.capacity,
    {
        self.enabled_ids.set(id, false);
        self.reserved_ids.set(id, false);
    }
}

} // verus!
