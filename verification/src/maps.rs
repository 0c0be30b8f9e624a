//! Map rendering composition: one instance buffer per map half (the layers
//! drawn under entities and the layers drawn over them) and a pool of map
//! texture slots handed out and reclaimed by id.

use crate::arena::Arena;
use crate::instance::{grown_capacity, InstanceBuffer};
use crate::order::OrderedIndex;
use vstd::prelude::*;

verus! {

/// Pool of map texture slot ids: `count` slots exist, `unused` lists the
/// ones not handed out, reused last-in first-out.
pub struct MapTextureIds {
    pub count: u32,
    pub unused: Vec<u32>,
}

impl MapTextureIds {
    /// All ids below the pool's count, each listed at most once.
    pub open spec fn wf(self) -> bool {
        &&& forall|i: int| 0 <= i < self.unused.len() ==> (#[trigger] self.unused[i]) < self.count
        &&& forall|i: int, j: int| 0 <= i < j < self.unused.len() ==> self.unused[i] != self.unused[j]
    }

    /// A pool of `count` slots, all unused, listed in increasing order.
    pub fn new(count: u32) -> (r: MapTextureIds)
        requires
            count as int <= usize::MAX,
        ensures
            r.wf(),
            r.count == count,
            r.unused@.len() == count,
            forall|i: int| 0 <= i < count ==> (#[trigger] r.unused@[i]) == i,
    {
        let mut unused: Vec<u32> = Vec::new();
        let mut i: u32 = 0;
        while i < count
            invariant
                0 <= i <= count,
                unused@.len() == i,
                forall|j: int| 0 <= j < i ==> (#[trigger] unused@[j]) == j,
            decreases count - i,
        {
            unused.push(i);
            i = i + 1;
        }
        MapTextureIds { count, unused }
    }

    /// Hands out the most recently reclaimed unused id, or `None` when the
    /// pool is exhausted.
    pub fn get_unused_id(&mut self) -> (r: Option<u32>)
        requires
            old(self).wf(),
        ensures
            final(self).wf(),
            final(self).count == old(self).count,
            r == (if old(self).unused@.len() > 0 {
                Option::<u32>::Some(old(self).unused@.last())
            } else {
                Option::<u32>::None
            }),
            final(self).unused@ =~= (if old(self).unused@.len() > 0 {
                old(self).unused@.drop_last()
            } else {
                old(self).unused@
            }),
    {
        self.unused.pop()
    }

    /// Returns an id to the pool.  An id from another pool or one already
    /// in the pool is refused, so the pool never double-hands a slot.
    pub fn mark_id_unused(&mut self, id: u32) -> (r: bool)
        requires
            old(self).wf(),
        ensures
            final(self).wf(),
            final(self).count == old(self).count,
            r == (id < old(self).count && forall|i: int|
                0 <= i < old(self).unused@.len() ==> (#[trigger] old(self).unused@[i]) != id),
            r ==> final(self).unused@ =~= old(self).unused@.push(id),
            !r ==> *final(self) == *old(self),
    {
        if id >= self.count {
            return false;
        }
        let n = self.unused.len();
        let mut i: usize = 0;
        while i < n
            invariant
                0 <= i <= n,
                n == self.unused.len(),
                *self == *old(self),
                old(self).wf(),
                id < old(self).count,
                forall|j: int| 0 <= j < i ==> (#[trigger] self.unused[j]) != id,
            decreases n - i,
        {
            if self.unused[i] == id {
                proof {
                    assert(old(self).unused@[i as int] == id);
                }
                return false;
            }
            i = i + 1;
        }
        self.unused.push(id);
        true
    }
}

/// Draw composition for tile maps: the lower map half draws under entities,
/// the upper half over them, each out of its own instance buffer.
pub struct MapRenderer {
    pub maplower_buffer: InstanceBuffer,
    pub mapupper_buffer: InstanceBuffer,
    pub map_ids: MapTextureIds,
}

impl MapRenderer {
    /// Both instance buffers well-formed, as is the id pool.
    pub open spec fn wf(self) -> bool {
        &&& self.maplower_buffer.wf()
        &&& self.mapupper_buffer.wf()
        &&& self.map_ids.wf()
    }

    /// A renderer for `map_count` maps: the lower buffer sized for thirty
    /// instances per map, the upper for fifteen, and one texture slot per
    /// map.
    pub fn new(map_count: u32) -> (r: MapRenderer)
        requires
            30 * map_count <= usize::MAX,
        ensures
            r.wf(),
            r.maplower_buffer.capacity == 30 * map_count,
            r.mapupper_buffer.capacity == 15 * map_count,
            r.maplower_buffer.count == 0,
            r.mapupper_buffer.count == 0,
            r.maplower_buffer.staged_view().len() == 0,
            r.mapupper_buffer.staged_view().len() == 0,
            r.map_ids.count == map_count,
            r.map_ids.unused@.len() == map_count,
    {
        MapRenderer {
            maplower_buffer: InstanceBuffer::with_capacity(30 * (map_count as usize)),
            mapupper_buffer: InstanceBuffer::with_capacity(15 * (map_count as usize)),
            map_ids: MapTextureIds::new(map_count),
        }
    }

    /// Registers one map's frame contribution: its lower-half index into the
    /// lower buffer and its upper-half index into the upper one.
    pub fn add_buffer_store(&mut self, arena: &Arena, index: (OrderedIndex, OrderedIndex)) -> (r: (bool, bool))
        requires
            old(self).wf(),
        ensures
            final(self).wf(),
            final(self).map_ids == old(self).map_ids,
            r.0 == arena.live(index.0.handle),
            r.1 == arena.live(index.1.handle),
            final(self).maplower_buffer.count == old(self).maplower_buffer.count,
            final(self).mapupper_buffer.count == old(self).mapupper_buffer.count,
            final(self).maplower_buffer.capacity == old(self).maplower_buffer.capacity,
            final(self).mapupper_buffer.capacity == old(self).mapupper_buffer.capacity,
            final(self).maplower_buffer.contents@ == old(self).maplower_buffer.contents@,
            final(self).mapupper_buffer.contents@ == old(self).mapupper_buffer.contents@,
            r.0 ==> crate::instance::registered(
                old(self).maplower_buffer.staged_view(),
                final(self).maplower_buffer.staged_view(),
                index.0.handle,
                arena.bytes_of(index.0.handle),
            ),
            r.1 ==> crate::instance::registered(
                old(self).mapupper_buffer.staged_view(),
                final(self).mapupper_buffer.staged_view(),
                index.1.handle,
                arena.bytes_of(index.1.handle),
            ),
            !r.0 ==> final(self).maplower_buffer == old(self).maplower_buffer,
            !r.1 ==> final(self).mapupper_buffer == old(self).mapupper_buffer,
    {
        let a = self.maplower_buffer.add_buffer_store(arena, index.0);
        let b = self.mapupper_buffer.add_buffer_store(arena, index.1);
        (a, b)
    }

    /// Closes the frame for both halves: fixes their draw ranges and upload
    /// contents and resets their staging for the next frame.
    pub fn finalize(&mut self)
        requires
            old(self).wf(),
        ensures
            final(self).wf(),
            final(self).map_ids == old(self).map_ids,
            final(self).maplower_buffer.count == old(self).maplower_buffer.staged_view().len(),
            final(self).mapupper_buffer.count == old(self).mapupper_buffer.staged_view().len(),
            final(self).maplower_buffer.capacity == grown_capacity(
                old(self).maplower_buffer.capacity as int,
                old(self).maplower_buffer.staged_view().len() as int,
            ),
            final(self).mapupper_buffer.capacity == grown_capacity(
                old(self).mapupper_buffer.capacity as int,
                old(self).mapupper_buffer.staged_view().len() as int,
            ),
            final(self).maplower_buffer.contents@ =~= crate::instance::concat_payloads(
                old(self).maplower_buffer.staged_view(),
            ),
            final(self).mapupper_buffer.contents@ =~= crate::instance::concat_payloads(
                old(self).mapupper_buffer.staged_view(),
            ),
            final(self).maplower_buffer.staged_view().len() == 0,
            final(self).mapupper_buffer.staged_view().len() == 0,
    {
        self.maplower_buffer.finalize();
        self.mapupper_buffer.finalize();
    }

    /// Hands out an unused map texture slot id.
    pub fn get_unused_id(&mut self) -> (r: Option<u32>)
        requires
            old(self).wf(),
        ensures
            final(self).wf(),
            final(self).maplower_buffer == old(self).maplower_buffer,
            final(self).mapupper_buffer == old(self).mapupper_buffer,
            final(self).map_ids.count == old(self).map_ids.count,
            r == (if old(self).map_ids.unused@.len() > 0 {
                Option::<u32>::Some(old(self).map_ids.unused@.last())
            } else {
                Option::<u32>::None
            }),
            final(self).map_ids.unused@ =~= (if old(self).map_ids.unused@.len() > 0 {
                old(self).map_ids.unused@.drop_last()
            } else {
                old(self).map_ids.unused@
            }),
    {
        self.map_ids.get_unused_id()
    }

    /// Returns a map texture slot id to the pool.
    pub fn mark_id_unused(&mut self, id: u32) -> (r: bool)
        requires
            old(self).wf(),
        ensures
            final(self).wf(),
            final(self).maplower_buffer == old(self).maplower_buffer,
            final(self).mapupper_buffer == old(self).mapupper_buffer,
            final(self).map_ids.count == old(self).map_ids.count,
            r == (id < old(self).map_ids.count && forall|i: int|
                0 <= i < old(self).map_ids.unused@.len()
                    ==> (#[trigger] old(self).map_ids.unused@[i]) != id),
            r ==> final(self).map_ids.unused@ =~= old(self).map_ids.unused@.push(id),
            !r ==> final(self).map_ids == old(self).map_ids,
    {
        self.map_ids.mark_id_unused(id)
    }
}

} // verus!
