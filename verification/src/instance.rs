//! Per-draw-call instance buffer: aggregates the byte payloads of many
//! objects into one batched store, one staged entry per object and frame.
//! Registering the same handle twice in a frame overwrites its slot instead
//! of duplicating it; `finalize` grows the capacity geometrically when the
//! staged demand exceeds it and fixes the frame's draw range.

use crate::arena::{Arena, Handle};
use crate::order::OrderedIndex;
use vstd::prelude::*;

verus! {

/// The staged entries with their payloads as mathematical sequences.
pub open spec fn staged_view_of(staged: Seq<(Handle, Vec<u8>)>) -> Seq<(Handle, Seq<u8>)> {
    Seq::new(staged.len(), |k: int| (staged[k].0, staged[k].1@))
}

/// Index of the first staged entry carrying `h`, or the length when none
/// does.
pub open spec fn staged_idx(s: Seq<(Handle, Seq<u8>)>, h: Handle) -> int
    decreases s.len()
{
    if s.len() == 0 {
        0
    } else if s[0].0 == h {
        0
    } else {
        1 + staged_idx(s.drop_first(), h)
    }
}

/// The staged payloads laid out back to back, in staging order.
pub open spec fn concat_payloads(s: Seq<(Handle, Seq<u8>)>) -> Seq<u8>
    decreases s.len()
{
    if s.len() == 0 {
        Seq::empty()
    } else {
        concat_payloads(s.drop_last()) + s.last().1
    }
}

/// The capacity after making room for `needed` instances: unchanged while
/// demand fits, else doubled, but never less than the demand and never more
/// than the machine allows.
pub open spec fn grown_capacity(cap: int, needed: int) -> int {
    if needed <= cap {
        cap
    } else if 2 * cap < needed {
        needed
    } else if 2 * cap <= usize::MAX {
        2 * cap
    } else {
        usize::MAX as int
    }
}

/// GPU-buffer mirror for one draw category.  `staged` collects this frame's
/// registrations; `contents` holds the bytes of the last finalized frame in
/// staging order (the range the device-facing layer uploads); `count` is the
/// finalized instance count, the draw range being `[0, count)`; `capacity`
/// only grows, never shrinks, within a session.
pub struct InstanceBuffer {
    pub staged: Vec<(Handle, Vec<u8>)>,
    pub contents: Vec<u8>,
    pub capacity: usize,
    pub count: usize,
}

impl InstanceBuffer {
    /// The staged entries with their payloads as sequences.
    pub open spec fn staged_view(self) -> Seq<(Handle, Seq<u8>)> {
        staged_view_of(self.staged@)
    }

    /// Well-formedness: no handle is staged twice, and the finalized count
    /// never exceeds the capacity.
    pub open spec fn wf(self) -> bool {
        &&& forall|i: int, j: int|
            0 <= i < j < self.staged.len()
                ==> (#[trigger] self.staged[i]).0 != (#[trigger] self.staged[j]).0
        &&& self.count <= self.capacity
    }

    /// An empty buffer with room for `capacity` instances.
    pub fn with_capacity(capacity: usize) -> (r: InstanceBuffer)
        ensures
            r.wf(),
            r.staged_view() =~= Seq::<(Handle, Seq<u8>)>::empty(),
            r.contents@ =~= Seq::<u8>::empty(),
            r.capacity == capacity,
            r.count == 0,
    {
        InstanceBuffer { staged: Vec::new(), contents: Vec::new(), capacity, count: 0 }
    }

    /// The finalized instance count of the last frame.
    pub fn count(&self) -> (r: usize)
        ensures
            r == self.count,
    {
        self.count
    }

    /// The instance range to draw: `Some(count)` for the range `[0, count)`,
    /// or `None` when the category has nothing to draw, in which case no
    /// draw call is issued.
    pub fn draw_range(&self) -> (r: Option<usize>)
        ensures
            r == (if self.count == 0 { Option::<usize>::None } else { Option::<usize>::Some(self.count) }),
    {
        if self.count == 0 {
            None
        } else {
            Some(self.count)
        }
    }

    /// Registers one ordered index for this frame: copies the arena entry's
    /// current bytes into the staging region, at the next free slot for a
    /// new handle, or over its old slot for a handle already staged this
    /// frame.  A stale handle registers nothing.
    pub fn add_buffer_store(&mut self, arena: &Arena, index: OrderedIndex) -> (r: bool)
        requires
            old(self).wf(),
        ensures
            final(self).wf(),
            final(self).capacity == old(self).capacity,
            final(self).count == old(self).count,
            final(self).contents@ == old(self).contents@,
            r == arena.live(index.handle),
            !r ==> *final(self) == *old(self),
            r ==> registered(
                old(self).staged_view(),
                final(self).staged_view(),
                index.handle,
                arena.bytes_of(index.handle),
            ),
    {
        let h = index.handle;
        let bytes = match arena.get_bytes(h) {
            Some(b) => copy_bytes(b),
            None => {
                return false;
            },
        };
        let ghost bv = bytes@;
        let n = self.staged.len();
        let mut i: usize = 0;
        while i < n
            invariant
                0 <= i <= n,
                n == self.staged.len(),
                *self == *old(self),
                old(self).wf(),
                bytes@ == bv,
                bv == arena.bytes_of(h),
                arena.live(h),
                h == index.handle,
                forall|j: int| 0 <= j < i ==> (#[trigger] self.staged[j]).0 != h,
            decreases n - i,
        {
            if self.staged[i].0 == h {
                proof {
                    lemma_staged_idx_at(self.staged_view(), h, i as int);
                }
                self.staged[i] = (h, bytes);
                proof {
                    assert(self.staged@ == old(self).staged@.update(i as int, (h, bytes)));
                    assert forall|k: int| 0 <= k < self.staged_view().len() implies
                        self.staged_view()[k] == old(self).staged_view().update(i as int, (h, bv))[k] by {
                        assert(self.staged_view()[k] == (self.staged@[k].0, self.staged@[k].1@));
                    }
                    assert(self.staged_view() =~= old(self).staged_view().update(i as int, (h, bv)));
                }
                return true;
            }
            i = i + 1;
        }
        proof {
            lemma_staged_idx_at(self.staged_view(), h, n as int);
        }
        self.staged.push((h, bytes));
        proof {
            assert(self.staged@ == old(self).staged@.push((h, bytes)));
            assert forall|k: int| 0 <= k < self.staged_view().len() implies
                self.staged_view()[k] == old(self).staged_view().push((h, bv))[k] by {
                assert(self.staged_view()[k] == (self.staged@[k].0, self.staged@[k].1@));
            }
            assert(self.staged_view() =~= old(self).staged_view().push((h, bv)));
        }
        true
    }

    /// Closes the frame: fixes the draw range to the staged instance count,
    /// grows the capacity when the demand exceeds it (doubling, with at
    /// least the demanded room), lays the staged bytes out back to back as
    /// the range to upload, and resets the staging region for the next
    /// frame.
    pub fn finalize(&mut self)
        requires
            old(self).wf(),
        ensures
            final(self).wf(),
            final(self).count == old(self).staged_view().len(),
            final(self).capacity == grown_capacity(old(self).capacity as int, old(self).staged_view().len() as int),
            old(self).capacity <= final(self).capacity,
            final(self).contents@ =~= concat_payloads(old(self).staged_view()),
            final(self).staged_view() =~= Seq::<(Handle, Seq<u8>)>::empty(),
    {
        let n = self.staged.len();
        let mut out: Vec<u8> = Vec::new();
        proof {
            assert(self.staged_view().take(0) =~= Seq::<(Handle, Seq<u8>)>::empty());
        }
        let mut i: usize = 0;
        while i < n
            invariant
                0 <= i <= n,
                n == self.staged.len(),
                *self == *old(self),
                out@ =~= concat_payloads(self.staged_view().take(i as int)),
            decreases n - i,
        {
            let m = self.staged[i].1.len();
            let ghost before = out@;
            let mut j: usize = 0;
            while j < m
                invariant
                    0 <= j <= m,
                    i < n,
                    n == self.staged.len(),
                    *self == *old(self),
                    m == self.staged[i as int].1.len(),
                    out@ =~= before + self.staged[i as int].1@.take(j as int),
                decreases m - j,
            {
                let b = self.staged[i].1[j];
                out.push(b);
                proof {
                    assert(self.staged[i as int].1@.take(j + 1) =~= self.staged[i as int].1@.take(
                        j as int,
                    ).push(b));
                }
                j = j + 1;
            }
            proof {
                let sv = self.staged_view();
                assert(self.staged[i as int].1@.take(m as int) =~= sv[i as int].1);
                assert(sv.take(i + 1).drop_last() =~= sv.take(i as int));
                assert(sv.take(i + 1).last() == sv[i as int]);
                assert(out@ =~= concat_payloads(sv.take(i + 1)));
            }
            i = i + 1;
        }
        proof {
            assert(self.staged_view().take(n as int) =~= self.staged_view());
        }
        self.count = n;
        if n > self.capacity {
            if self.capacity > usize::MAX / 2 {
                self.capacity = usize::MAX;
            } else {
                let doubled = self.capacity * 2;
                self.capacity = if doubled < n { n } else { doubled };
            }
        }
        self.contents = out;
        self.staged.clear();
        proof {
            assert(self.staged_view() =~= Seq::<(Handle, Seq<u8>)>::empty());
        }
    }
}

/// Byte-for-byte copy of a payload.
pub(crate) fn copy_bytes(src: &Vec<u8>) -> (r: Vec<u8>)
    ensures
        r@ =~= src@,
{
    let n = src.len();
    let mut out: Vec<u8> = Vec::new();
    let mut i: usize = 0;
    while i < n
        invariant
            0 <= i <= n,
            n == src.len(),
            out@ =~= src@.take(i as int),
        decreases n - i,
    {
        out.push(src[i]);
        proof {
            assert(src@.take(i + 1) =~= src@.take(i as int).push(src@[i as int]));
        }
        i = i + 1;
    }
    proof {
        assert(src@.take(n as int) =~= src@);
    }
    out
}

/// One frame's registration step over the staging region, as
/// `add_buffer_store` ensures it for a live handle: an overwrite in place
/// when the handle is already staged, an append when it is new.
pub open spec fn registered(
    pre: Seq<(Handle, Seq<u8>)>,
    post: Seq<(Handle, Seq<u8>)>,
    h: Handle,
    b: Seq<u8>,
) -> bool {
    if staged_idx(pre, h) < pre.len() {
        post == pre.update(staged_idx(pre, h), (h, b))
    } else {
        post == pre.push((h, b))
    }
}

/// `staged_idx` lands inside the staging region exactly when some entry
/// carries the handle, and then names the first such entry.
pub proof fn lemma_staged_idx_bounds(s: Seq<(Handle, Seq<u8>)>, h: Handle)
    ensures
        0 <= staged_idx(s, h) <= s.len(),
        staged_idx(s, h) < s.len() ==> s[staged_idx(s, h)].0 == h,
        staged_idx(s, h) == s.len() ==> forall|i: int| 0 <= i < s.len() ==> (#[trigger] s[i]).0 != h,
    decreases s.len(),
{
    if s.len() > 0 && s[0].0 != h {
        lemma_staged_idx_bounds(s.drop_first(), h);
        if staged_idx(s, h) == s.len() {
            assert forall|i: int| 0 <= i < s.len() implies (#[trigger] s[i]).0 != h by {
                if i > 0 {
                    assert(s.drop_first()[i - 1] == s[i]);
                }
            }
        }
    }
}

/// Registering a handle new to the frame stages exactly one more entry;
/// re-registering a handle already staged overwrites its slot and stages
/// nothing new.  With `finalize` fixing the count to the staged length,
/// registering N distinct handles in a frame gives a count of N, and a
/// repeat gives N, not N + 1.
pub proof fn lemma_register_count(
    pre: Seq<(Handle, Seq<u8>)>,
    post: Seq<(Handle, Seq<u8>)>,
    h: Handle,
    b: Seq<u8>,
)
    requires
        registered(pre, post, h, b),
    ensures
        (forall|i: int| 0 <= i < pre.len() ==> (#[trigger] pre[i]).0 != h) ==> post.len() == pre.len() + 1,
        (exists|i: int| 0 <= i < pre.len() && (#[trigger] pre[i]).0 == h) ==> post.len() == pre.len(),
{
    lemma_staged_idx_bounds(pre, h);
}

/// `staged_idx` names the first match: no entry before `i` carries the
/// handle and `i` either does or is the length.
proof fn lemma_staged_idx_at(s: Seq<(Handle, Seq<u8>)>, h: Handle, i: int)
    requires
        0 <= i <= s.len(),
        forall|j: int| 0 <= j < i ==> (#[trigger] s[j]).0 != h,
        i == s.len() || s[i].0 == h,
    ensures
        staged_idx(s, h) == i,
    decreases s.len(),
{
    if i == 0 {
        if s.len() > 0 && s[0].0 != h {
            assert(i == s.len());
        }
    } else {
        assert(s[0].0 != h);
        assert forall|j: int| 0 <= j < i - 1 implies (#[trigger] s.drop_first()[j]).0 != h by {
            assert(s.drop_first()[j] == s[j + 1]);
        }
        if i < s.len() {
            assert(s.drop_first()[i - 1] == s[i]);
        }
        lemma_staged_idx_at(s.drop_first(), h, i - 1);
    }
}

} // verus!
