//! Generational-index arena: every renderable object holds a cheap `Handle`
//! into renderer-owned byte storage.  Freeing a slot bumps its generation,
//! so stale copies of the handle can never reach the storage again.

use vstd::prelude::*;

verus! {

/// Identifier of one arena entry: valid only while `generation` matches the
/// slot's current generation.
#[derive(Clone, Copy, PartialEq, Eq, Structural, Debug)]
pub struct Handle {
    pub slot: usize,
    pub generation: u32,
}

/// One storage slot: the entry's serialized byte payload, its dirty flag,
/// and the generation stamped into handles while the slot is occupied.
pub struct ArenaSlot {
    pub generation: u32,
    pub occupied: bool,
    pub bytes: Vec<u8>,
    pub changed: bool,
}

/// Arena of byte payloads addressed by generational handles.  `free` lists
/// the unoccupied slots, reused last-in first-out.
pub struct Arena {
    pub slots: Vec<ArenaSlot>,
    pub free: Vec<usize>,
}

impl Arena {
    /// Well-formedness: the free list names only unoccupied slots, each at
    /// most once.
    pub open spec fn wf(self) -> bool {
        &&& forall|i: int|
            0 <= i < self.free.len() ==> (#[trigger] self.free[i]) < self.slots.len()
                && !self.slots[self.free[i] as int].occupied
        &&& forall|i: int, j: int| 0 <= i < j < self.free.len() ==> self.free[i] != self.free[j]
    }

    /// The handle addresses a currently-occupied slot of its generation.
    pub open spec fn live(self, h: Handle) -> bool {
        &&& h.slot < self.slots.len()
        &&& self.slots[h.slot as int].occupied
        &&& self.slots[h.slot as int].generation == h.generation
    }

    /// The handle's generation lies strictly behind its slot's: it was
    /// freed (or forged) and can never become live again.
    pub open spec fn stale(self, h: Handle) -> bool {
        h.slot < self.slots.len() && h.generation < self.slots[h.slot as int].generation
    }

    /// The byte payload stored under a handle.
    pub open spec fn bytes_of(self, h: Handle) -> Seq<u8> {
        self.slots[h.slot as int].bytes@
    }

    /// The dirty flag stored under a handle.
    pub open spec fn changed_of(self, h: Handle) -> bool {
        self.slots[h.slot as int].changed
    }

    /// No slot's generation ever decreases from `pre` to `post`, and no
    /// slot disappears.  Every arena operation ensures this, so it composes
    /// over whole call sequences.
    pub open spec fn gens_monotone(pre: Arena, post: Arena) -> bool {
        &&& pre.slots.len() <= post.slots.len()
        &&& forall|s: int|
            0 <= s < pre.slots.len()
                ==> (#[trigger] pre.slots[s]).generation <= post.slots[s].generation
    }

    /// An empty arena.
    pub fn new() -> (r: Arena)
        ensures
            r.wf(),
            r.slots@.len() == 0,
            r.free@.len() == 0,
    {
        Arena { slots: Vec::new(), free: Vec::new() }
    }

    /// Takes the most recently freed slot, or opens a new one, and returns
    /// its handle.  The fresh entry holds empty bytes and is marked changed.
    /// The fresh handle was not live before; every handle live before stays
    /// live, with its payload untouched.
    pub fn allocate(&mut self) -> (r: Handle)
        requires
            old(self).wf(),
        ensures
            final(self).wf(),
            Arena::gens_monotone(*old(self), *final(self)),
            final(self).live(r),
            !old(self).live(r),
            final(self).bytes_of(r) =~= Seq::<u8>::empty(),
            final(self).changed_of(r),
            r == (if old(self).free@.len() > 0 {
                Handle {
                    slot: old(self).free@.last(),
                    generation: old(self).slots@[old(self).free@.last() as int].generation,
                }
            } else {
                Handle { slot: old(self).slots@.len() as usize, generation: 0u32 }
            }),
            final(self).free@ =~= (if old(self).free@.len() > 0 {
                old(self).free@.drop_last()
            } else {
                old(self).free@
            }),
            final(self).slots@.len() == if old(self).free@.len() > 0 {
                old(self).slots@.len()
            } else {
                old(self).slots@.len() + 1
            },
            forall|h: Handle|
                old(self).live(h) ==> final(self).live(h)
                    && final(self).bytes_of(h) == old(self).bytes_of(h)
                    && final(self).changed_of(h) == old(self).changed_of(h),
            forall|h: Handle| old(self).live(h) ==> h != r,
            forall|h: Handle| old(self).stale(h) ==> final(self).stale(h),
    {
        if let Some(s) = self.free.pop() {
            let generation = self.slots[s].generation;
            self.slots[s] = ArenaSlot { generation, occupied: true, bytes: Vec::new(), changed: true };
            Handle { slot: s, generation }
        } else {
            let s = self.slots.len();
            self.slots.push(ArenaSlot { generation: 0, occupied: true, bytes: Vec::new(), changed: true });
            Handle { slot: s, generation: 0 }
        }
    }

    /// Whether the handle is still valid: its slot occupied under the same
    /// generation.
    pub fn contains(&self, h: Handle) -> (r: bool)
        ensures
            r == self.live(h),
    {
        h.slot < self.slots.len() && self.slots[h.slot].occupied
            && self.slots[h.slot].generation == h.generation
    }

    /// The entry's byte payload, or `None` for a stale or out-of-range
    /// handle — the expected outcome of the generational scheme, never a
    /// fault.
    pub fn get_bytes(&self, h: Handle) -> (r: Option<&Vec<u8>>)
        ensures
            match r {
                Some(b) => self.live(h) && b@ == self.bytes_of(h),
                None => !self.live(h),
            },
    {
        if h.slot < self.slots.len() && self.slots[h.slot].occupied
            && self.slots[h.slot].generation == h.generation {
            Some(&self.slots[h.slot].bytes)
        } else {
            None
        }
    }

    /// The entry's dirty flag, or `None` for a stale handle.
    pub fn get_changed(&self, h: Handle) -> (r: Option<bool>)
        ensures
            match r {
                Some(c) => self.live(h) && c == self.changed_of(h),
                None => !self.live(h),
            },
    {
        if h.slot < self.slots.len() && self.slots[h.slot].occupied
            && self.slots[h.slot].generation == h.generation {
            Some(self.slots[h.slot].changed)
        } else {
            None
        }
    }

    /// Replaces the entry's byte payload and marks it changed, so the next
    /// buffer finalize re-uploads it.  Returns whether the handle was live;
    /// a stale handle changes nothing.
    pub fn store_bytes(&mut self, h: Handle, bytes: Vec<u8>) -> (r: bool)
        requires
            old(self).wf(),
        ensures
            final(self).wf(),
            Arena::gens_monotone(*old(self), *final(self)),
            r == old(self).live(h),
            !r ==> *final(self) == *old(self),
            r ==> {
                &&& final(self).live(h)
                &&& final(self).bytes_of(h) == bytes@
                &&& final(self).changed_of(h)
                &&& final(self).free@ == old(self).free@
                &&& final(self).slots@.len() == old(self).slots@.len()
                &&& forall|g: Handle|
                    old(self).live(g) && g.slot != h.slot ==> final(self).live(g)
                        && final(self).bytes_of(g) == old(self).bytes_of(g)
                        && final(self).changed_of(g) == old(self).changed_of(g)
            },
            forall|g: Handle| old(self).live(g) ==> final(self).live(g),
            forall|g: Handle| old(self).stale(g) ==> final(self).stale(g),
    {
        if h.slot < self.slots.len() && self.slots[h.slot].occupied
            && self.slots[h.slot].generation == h.generation {
            let generation = self.slots[h.slot].generation;
            self.slots[h.slot] = ArenaSlot { generation, occupied: true, bytes, changed: true };
            true
        } else {
            false
        }
    }

    /// Clears the entry's dirty flag, after its bytes have been copied out.
    /// Returns whether the handle was live.
    pub fn mark_clean(&mut self, h: Handle) -> (r: bool)
        requires
            old(self).wf(),
        ensures
            final(self).wf(),
            Arena::gens_monotone(*old(self), *final(self)),
            r == old(self).live(h),
            !r ==> *final(self) == *old(self),
            r ==> {
                &&& final(self).live(h)
                &&& final(self).bytes_of(h) == old(self).bytes_of(h)
                &&& !final(self).changed_of(h)
                &&& final(self).free@ == old(self).free@
                &&& final(self).slots@.len() == old(self).slots@.len()
                &&& forall|g: Handle|
                    old(self).live(g) && g.slot != h.slot ==> final(self).live(g)
                        && final(self).bytes_of(g) == old(self).bytes_of(g)
                        && final(self).changed_of(g) == old(self).changed_of(g)
            },
            forall|g: Handle| old(self).stale(g) ==> final(self).stale(g),
    {
        if h.slot < self.slots.len() && self.slots[h.slot].occupied
            && self.slots[h.slot].generation == h.generation {
            self.slots[h.slot].changed = false;
            true
        } else {
            false
        }
    }

    /// Returns the slot to the free list and bumps its generation, so every
    /// outstanding copy of the handle goes permanently stale; later lookups
    /// with the old handle return `None`.  A handle that is not live changes
    /// nothing, and neither does one whose slot has exhausted its generation
    /// counter: such a slot is never recycled, so no stale copy can ever
    /// alias a later handle.
    pub fn free(&mut self, h: Handle) -> (r: bool)
        requires
            old(self).wf(),
        ensures
            final(self).wf(),
            Arena::gens_monotone(*old(self), *final(self)),
            r == (old(self).live(h) && old(self).slots@[h.slot as int].generation < u32::MAX),
            !r ==> *final(self) == *old(self),
            r ==> {
                &&& !final(self).live(h)
                &&& final(self).stale(h)
                &&& final(self).slots@.len() == old(self).slots@.len()
                &&& final(self).free@ =~= old(self).free@.push(h.slot)
                &&& forall|g: Handle|
                    old(self).live(g) && g.slot != h.slot ==> final(self).live(g)
                        && final(self).bytes_of(g) == old(self).bytes_of(g)
                        && final(self).changed_of(g) == old(self).changed_of(g)
            },
            forall|g: Handle| old(self).stale(g) ==> final(self).stale(g),
    {
        if h.slot < self.slots.len() && self.slots[h.slot].occupied
            && self.slots[h.slot].generation == h.generation
            && self.slots[h.slot].generation < u32::MAX {
            let generation = self.slots[h.slot].generation + 1;
            self.slots[h.slot] = ArenaSlot { generation, occupied: false, bytes: Vec::new(), changed: false };
            self.free.push(h.slot);
            proof {
                assert forall|i: int, j: int|
                    0 <= i < j < self.free.len() implies self.free[i] != self.free[j] by {
                    if j == self.free.len() - 1 {
                        assert(!old(self).slots[old(self).free[i] as int].occupied);
                    }
                }
            }
            true
        } else {
            false
        }
    }
}

/// Two live handles of one slot are the same handle: a handle returned by
/// the arena is unique among currently-live handles.
pub proof fn lemma_live_unique(a: Arena, h1: Handle, h2: Handle)
    requires
        a.live(h1),
        a.live(h2),
        h1.slot == h2.slot,
    ensures
        h1 == h2,
{
}

/// Once a handle is stale, no chain of operations that only grows slot
/// generations can make it live again: `free` makes a handle stale, every
/// arena operation ensures `gens_monotone`, and this lemma closes the chain.
pub proof fn lemma_stale_stays_dead(pre: Arena, post: Arena, h: Handle)
    requires
        pre.stale(h),
        Arena::gens_monotone(pre, post),
    ensures
        post.stale(h),
        !post.live(h),
{
}

/// Generation monotonicity composes across any sequence of operations.
pub proof fn lemma_gens_monotone_trans(a: Arena, b: Arena, c: Arena)
    requires
        Arena::gens_monotone(a, b),
        Arena::gens_monotone(b, c),
    ensures
        Arena::gens_monotone(a, c),
{
}

} // verus!
