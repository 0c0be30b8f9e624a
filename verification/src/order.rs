//! Draw ordering: a total-order sort key attached to each object's frame
//! contribution.  Opaque draws sort before translucent ones, then by the
//! depth bucket derived from the object's world position, and a monotonic
//! sequence number breaks the remaining ties, so equal keys keep their
//! submission order under any stable sort.

use crate::arena::Handle;
use vstd::multiset::Multiset;
use vstd::prelude::*;

verus! {

/// Total-order sort key for one draw.
#[derive(Clone, Copy, PartialEq, Eq, Structural, Debug)]
pub struct DrawOrder {
    pub translucent: bool,
    pub depth_bucket: u32,
    pub sequence: u32,
}

/// Strict lexicographic order on (translucent, depth bucket, sequence),
/// with opaque before translucent.
pub open spec fn order_lt(a: DrawOrder, b: DrawOrder) -> bool {
    ||| (!a.translucent && b.translucent)
    ||| (a.translucent == b.translucent && a.depth_bucket < b.depth_bucket)
    ||| (a.translucent == b.translucent && a.depth_bucket == b.depth_bucket
        && a.sequence < b.sequence)
}

impl DrawOrder {
    /// Builds the key from the draw's translucency, its world position
    /// (the depth bucket is the position's depth coordinate), and the
    /// frame's monotonic sequence counter.
    pub fn new(translucent: bool, pos: [u32; 3], sequence: u32) -> (r: DrawOrder)
        ensures
            r.translucent == translucent,
            r.depth_bucket == pos[2],
            r.sequence == sequence,
    {
        DrawOrder { translucent, depth_bucket: pos[2], sequence }
    }

    /// Strict comparison, agreeing exactly with `order_lt`.
    pub fn lt(&self, other: &DrawOrder) -> (r: bool)
        ensures
            r == order_lt(*self, *other),
    {
        if self.translucent != other.translucent {
            !self.translucent
        } else if self.depth_bucket != other.depth_bucket {
            self.depth_bucket < other.depth_bucket
        } else {
            self.sequence < other.sequence
        }
    }
}

/// Trichotomy: of any two keys, exactly one of `a < b`, `a == b`, `b < a`
/// holds.
pub proof fn lemma_order_trichotomy(a: DrawOrder, b: DrawOrder)
    ensures
        order_lt(a, b) || a == b || order_lt(b, a),
        order_lt(a, b) ==> !(a == b) && !order_lt(b, a),
        a == b ==> !order_lt(a, b) && !order_lt(b, a),
        order_lt(b, a) ==> !(a == b) && !order_lt(a, b),
{
}

/// Transitivity: `a < b` and `b < c` give `a < c`.
pub proof fn lemma_order_transitive(a: DrawOrder, b: DrawOrder, c: DrawOrder)
    requires
        order_lt(a, b),
        order_lt(b, c),
    ensures
        order_lt(a, c),
{
}

/// Irreflexivity: no key sorts before itself.
pub proof fn lemma_order_irreflexive(a: DrawOrder)
    ensures
        !order_lt(a, a),
{
}

/// A draw's sort key paired with its storage handle; produced fresh each
/// frame by each renderable object and consumed by the frame compositor.
#[derive(Clone, Copy, PartialEq, Eq, Structural, Debug)]
pub struct OrderedIndex {
    pub order: DrawOrder,
    pub handle: Handle,
}

impl OrderedIndex {
    /// Pairs a sort key with the object's arena handle.
    pub fn new(order: DrawOrder, handle: Handle) -> (r: OrderedIndex)
        ensures
            r.order == order,
            r.handle == handle,
    {
        OrderedIndex { order, handle }
    }
}

/// The frame's indices come in draw order: no entry sorts strictly before
/// its predecessor, so registering them in sequence respects the total
/// order and equal keys keep their submission order.
pub open spec fn indices_sorted(s: Seq<OrderedIndex>) -> bool {
    forall|i: int| 0 < i < s.len() ==> !order_lt((#[trigger] s[i]).order, s[i - 1].order)
}

/// Where a fresh index lands in an already-ordered run: after every entry
/// it does not sort strictly before, so an entry with an equal key keeps
/// its place in front of the newcomer.
pub open spec fn insert_ordered(t: Seq<OrderedIndex>, x: OrderedIndex) -> Seq<OrderedIndex>
    decreases t.len()
{
    if t.len() == 0 {
        seq![x]
    } else if order_lt(x.order, t.last().order) {
        insert_ordered(t.drop_last(), x).push(t.last())
    } else {
        t.push(x)
    }
}

/// The frame's indices in draw order: each taken in submission order and
/// placed after every entry it does not sort strictly before — a stable
/// insertion sort, so equal keys keep their submission order.
pub open spec fn sorted_indices(s: Seq<OrderedIndex>) -> Seq<OrderedIndex>
    decreases s.len()
{
    if s.len() == 0 {
        Seq::empty()
    } else {
        insert_ordered(sorted_indices(s.drop_last()), s.last())
    }
}

/// Inserting into an ordered run keeps it ordered, adds exactly the new
/// entry, and ends in either the newcomer or the old last entry.
proof fn lemma_insert_ordered_props(t: Seq<OrderedIndex>, x: OrderedIndex)
    requires
        indices_sorted(t),
    ensures
        indices_sorted(insert_ordered(t, x)),
        insert_ordered(t, x).len() == t.len() + 1,
        insert_ordered(t, x).to_multiset() =~= t.to_multiset().insert(x),
        insert_ordered(t, x).last() == x || (t.len() > 0 && insert_ordered(t, x).last() == t.last()),
    decreases t.len(),
{
    broadcast use vstd::seq_lib::group_to_multiset_ensures;

    if t.len() == 0 {
        assert(insert_ordered(t, x) =~= Seq::empty().push(x));
        assert(t.to_multiset() =~= Multiset::empty());
    } else if order_lt(x.order, t.last().order) {
        assert(indices_sorted(t.drop_last())) by {
            assert forall|i: int| 0 < i < t.drop_last().len() implies !order_lt(
                (#[trigger] t.drop_last()[i]).order,
                t.drop_last()[i - 1].order,
            ) by {
                assert(t.drop_last()[i] == t[i]);
                assert(t.drop_last()[i - 1] == t[i - 1]);
            }
        }
        lemma_insert_ordered_props(t.drop_last(), x);
        let u = insert_ordered(t.drop_last(), x);
        assert(indices_sorted(u.push(t.last()))) by {
            assert forall|i: int| 0 < i < u.push(t.last()).len() implies !order_lt(
                (#[trigger] u.push(t.last())[i]).order,
                u.push(t.last())[i - 1].order,
            ) by {
                if i < u.len() {
                    assert(u.push(t.last())[i] == u[i]);
                    assert(u.push(t.last())[i - 1] == u[i - 1]);
                } else {
                    assert(u.push(t.last())[i] == t.last());
                    assert(u.push(t.last())[i - 1] == u.last());
                    if u.last() == x {
                    } else {
                        assert(t.len() > 1 && u.last() == t.drop_last().last());
                        assert(t.drop_last().last() == t[t.len() - 2]);
                        assert(!order_lt(t.last().order, t[t.len() - 2].order));
                    }
                }
            }
        }
        assert(t =~= t.drop_last().push(t.last()));
        assert(t.to_multiset() =~= t.drop_last().to_multiset().insert(t.last()));
        assert(u.push(t.last()).to_multiset() =~= u.to_multiset().insert(t.last()));
        assert(u.push(t.last()).to_multiset() =~= t.to_multiset().insert(x));
    } else {
        assert(indices_sorted(t.push(x))) by {
            assert forall|i: int| 0 < i < t.push(x).len() implies !order_lt(
                (#[trigger] t.push(x)[i]).order,
                t.push(x)[i - 1].order,
            ) by {
                if i < t.len() {
                    assert(t.push(x)[i] == t[i]);
                    assert(t.push(x)[i - 1] == t[i - 1]);
                } else {
                    assert(t.push(x)[i - 1] == t.last());
                }
            }
        }
    }
}

/// The stable sort of a frame's indices is ordered and is a permutation of
/// the submissions: together with the total order on keys, any correct
/// stable sort yields this exact sequence, and so an identical visible
/// result.
pub proof fn lemma_sorted_indices_props(s: Seq<OrderedIndex>)
    ensures
        indices_sorted(sorted_indices(s)),
        sorted_indices(s).len() == s.len(),
        sorted_indices(s).to_multiset() =~= s.to_multiset(),
    decreases s.len(),
{
    broadcast use vstd::seq_lib::group_to_multiset_ensures;

    if s.len() == 0 {
    } else {
        lemma_sorted_indices_props(s.drop_last());
        lemma_insert_ordered_props(sorted_indices(s.drop_last()), s.last());
        assert(s =~= s.drop_last().push(s.last()));
        assert(s.to_multiset() =~= s.drop_last().to_multiset().insert(s.last()));
    }
}

/// The scan-from-the-end insertion position pins `insert_ordered` exactly:
/// the newcomer goes in front of every entry it sorts strictly before and
/// behind everything else.
proof fn lemma_insert_ordered_at(t: Seq<OrderedIndex>, x: OrderedIndex, p: int)
    requires
        0 <= p <= t.len(),
        forall|k: int| p <= k < t.len() ==> order_lt(x.order, (#[trigger] t[k]).order),
        p > 0 ==> !order_lt(x.order, t[p - 1].order),
    ensures
        insert_ordered(t, x) =~= t.insert(p, x),
    decreases t.len(),
{
    if t.len() == 0 {
        assert(insert_ordered(t, x) =~= t.insert(0, x));
    } else if p == t.len() {
        assert(!order_lt(x.order, t.last().order));
        assert(t.push(x) =~= t.insert(p, x));
    } else {
        assert(order_lt(x.order, t.last().order));
        assert forall|k: int| p <= k < t.drop_last().len() implies order_lt(
            x.order,
            (#[trigger] t.drop_last()[k]).order,
        ) by {
            assert(t.drop_last()[k] == t[k]);
        }
        if p > 0 {
            assert(t.drop_last()[p - 1] == t[p - 1]);
        }
        lemma_insert_ordered_at(t.drop_last(), x, p);
        assert(insert_ordered(t.drop_last(), x).push(t.last()) =~= t.insert(p, x));
    }
}

/// Sorts a frame's indices into draw order in place, stably: the result is
/// exactly the stable insertion of each index in submission order, so it is
/// ordered, a permutation of the input, and equal keys keep their
/// submission order.
pub fn sort_indices(indices: &mut Vec<OrderedIndex>)
    ensures
        final(indices)@ == sorted_indices(old(indices)@),
        indices_sorted(final(indices)@),
        final(indices)@.to_multiset() =~= old(indices)@.to_multiset(),
    {
    let n = indices.len();
    let mut i: usize = 0;
    proof {
        assert(indices@.subrange(0, 0) =~= sorted_indices(old(indices)@.subrange(0, 0)));
    }
    while i < n
        invariant
            0 <= i <= n,
            n == indices@.len(),
            n == old(indices)@.len(),
            indices@.subrange(i as int, n as int) =~= old(indices)@.subrange(i as int, n as int),
            indices@.subrange(0, i as int) =~= sorted_indices(old(indices)@.subrange(0, i as int)),
        decreases n - i,
    {
        let ghost cur = indices@;
        let x = indices[i];
        proof {
            assert forall|k: int| i <= k < n implies cur[k] == old(indices)@[k] by {
                assert(cur.subrange(i as int, n as int)[k - i] == cur[k]);
                assert(old(indices)@.subrange(i as int, n as int)[k - i] == old(indices)@[k]);
            }
        }
        let removed = indices.remove(i);
        let ghost before = indices@;
        let mut p: usize = i;
        while p > 0 && removed.order.lt(&indices[p - 1].order)
            invariant
                0 <= p <= i,
                i < n,
                n == indices@.len() + 1,
                indices@ == before,
                removed == x,
                forall|k: int| p <= k < i ==> order_lt(x.order, (#[trigger] indices@[k]).order),
            decreases p,
        {
            p = p - 1;
        }
        indices.insert(p, removed);
        proof {
            let pre_prefix = before.subrange(0, i as int);
            assert forall|k: int| 0 <= k < i implies pre_prefix[k] == cur[k] by {
                assert(pre_prefix[k] == before[k]);
                assert(before[k] == cur.remove(i as int)[k]);
            }
            assert(pre_prefix =~= cur.subrange(0, i as int));
            assert forall|k: int| p <= k < i implies order_lt(
                x.order,
                (#[trigger] pre_prefix[k]).order,
            ) by {
                assert(pre_prefix[k] == before[k]);
            }
            lemma_insert_ordered_at(pre_prefix, x, p as int);
            assert forall|k: int| 0 <= k < i + 1 implies indices@.subrange(0, i + 1)[k]
                == pre_prefix.insert(p as int, x)[k] by {
                assert(indices@[k] == before.insert(p as int, x)[k]);
                if k < p {
                    assert(before.insert(p as int, x)[k] == before[k]);
                } else if k > p {
                    assert(before.insert(p as int, x)[k] == before[k - 1]);
                }
            }
            assert(indices@.subrange(0, i + 1) =~= pre_prefix.insert(p as int, x));
            assert(old(indices)@.subrange(0, i + 1).drop_last() =~= old(indices)@.subrange(0, i as int));
            assert(old(indices)@.subrange(0, i + 1).last() == old(indices)@[i as int]);
            assert(x == old(indices)@[i as int]);
            assert(indices@.subrange(0, i + 1) =~= sorted_indices(old(indices)@.subrange(0, i + 1)));
            assert forall|k: int| i + 1 <= k < n implies indices@[k] == old(indices)@[k] by {
                assert(indices@[k] == before.insert(p as int, x)[k]);
                assert(before.insert(p as int, x)[k] == before[k - 1]);
                assert(before[k - 1] == cur.remove(i as int)[k - 1]);
                assert(cur.remove(i as int)[k - 1] == cur[k]);
            }
            assert(indices@.subrange(i + 1, n as int) =~= old(indices)@.subrange(i + 1, n as int));
        }
        i = i + 1;
    }
    proof {
        assert(indices@.subrange(0, n as int) =~= indices@);
        assert(old(indices)@.subrange(0, n as int) =~= old(indices)@);
        lemma_sorted_indices_props(old(indices)@);
    }
}

/// Checks that a frame's index list is already in draw order, for the
/// compositor protocol in which the caller supplies a sorted list.
pub fn check_sorted(indices: &Vec<OrderedIndex>) -> (r: bool)
    ensures
        r == indices_sorted(indices@),
{
    let n = indices.len();
    let mut i: usize = 1;
    while i < n
        invariant
            1 <= i <= n || (n == 0 && i == 1),
            n == indices@.len(),
            forall|j: int| 0 < j < i ==> !order_lt((#[trigger] indices@[j]).order, indices@[j - 1].order),
        decreases n - i,
    {
        if indices[i].order.lt(&indices[i - 1].order) {
            return false;
        }
        i = i + 1;
    }
    true
}

} // verus!
