//! Quad index generation: every quad-based renderable (sprites, map tiles,
//! glyphs) draws two triangles over four unique vertices, so one shared
//! helper emits the fixed index pattern for any capacity.

use vstd::prelude::*;

verus! {

/// The index at position `k` of the quad pattern: quad `k / 6` contributes
/// `[0, 1, 2, 0, 2, 3]`, each entry offset by four times the quad number.
pub open spec fn quad_index_at(k: int) -> int {
    let q = k / 6;
    let o = k % 6;
    let corner = if o == 0 {
        0int
    } else if o == 1 {
        1int
    } else if o == 2 {
        2int
    } else if o == 3 {
        0int
    } else if o == 4 {
        2int
    } else {
        3int
    };
    4 * q + corner
}

/// Indices for `capacity` quads: `6 * capacity` entries, entry `k` being
/// `quad_index_at(k)`, so quad `i` reads vertices `4*i .. 4*i + 3` in the
/// order `[0, 1, 2, 0, 2, 3]`.
pub fn quad_indices(capacity: u32) -> (r: Vec<u32>)
    requires
        4 * capacity <= u32::MAX,
        6 * capacity <= usize::MAX,
    ensures
        r@.len() == 6 * capacity,
        forall|k: int| 0 <= k < r@.len() ==> (#[trigger] r@[k]) == quad_index_at(k),
        forall|i: int|
            0 <= i < capacity ==> (#[trigger] r@[6 * i]) == 4 * i && r@[6 * i + 1] == 4 * i + 1
                && r@[6 * i + 2] == 4 * i + 2 && r@[6 * i + 3] == 4 * i
                && r@[6 * i + 4] == 4 * i + 2 && r@[6 * i + 5] == 4 * i + 3,
    {
    let mut out: Vec<u32> = Vec::new();
    let mut i: u32 = 0;
    while i < capacity
        invariant
            0 <= i <= capacity,
            4 * capacity <= u32::MAX,
            6 * capacity <= usize::MAX,
            out@.len() == 6 * i,
            forall|k: int| 0 <= k < out@.len() ==> (#[trigger] out@[k]) == quad_index_at(k),
        decreases capacity - i,
    {
        let x = 4 * i;
        out.push(x);
        out.push(x + 1);
        out.push(x + 2);
        out.push(x);
        out.push(x + 2);
        out.push(x + 3);
        proof {
            assert forall|k: int| 0 <= k < out@.len() implies (#[trigger] out@[k]) == quad_index_at(k) by {
                if k >= 6 * i {
                    assert(k / 6 == i && k % 6 == k - 6 * i) by (nonlinear_arith)
                        requires 6 * i <= k < 6 * (i + 1), i >= 0;
                }
            }
        }
        i = i + 1;
    }
    proof {
        assert forall|i2: int| 0 <= i2 < capacity implies (#[trigger] out@[6 * i2]) == 4 * i2
            && out@[6 * i2 + 1] == 4 * i2 + 1 && out@[6 * i2 + 2] == 4 * i2 + 2
            && out@[6 * i2 + 3] == 4 * i2 && out@[6 * i2 + 4] == 4 * i2 + 2
            && out@[6 * i2 + 5] == 4 * i2 + 3 by {
            assert((6 * i2) / 6 == i2 && (6 * i2) % 6 == 0 && (6 * i2 + 1) / 6 == i2
                && (6 * i2 + 1) % 6 == 1 && (6 * i2 + 2) / 6 == i2 && (6 * i2 + 2) % 6 == 2
                && (6 * i2 + 3) / 6 == i2 && (6 * i2 + 3) % 6 == 3 && (6 * i2 + 4) / 6 == i2
                && (6 * i2 + 4) % 6 == 4 && (6 * i2 + 5) / 6 == i2 && (6 * i2 + 5) % 6 == 5)
                by (nonlinear_arith)
                requires i2 >= 0;
            assert(out@[6 * i2] == quad_index_at(6 * i2));
            assert(out@[6 * i2 + 1] == quad_index_at(6 * i2 + 1));
            assert(out@[6 * i2 + 2] == quad_index_at(6 * i2 + 2));
            assert(out@[6 * i2 + 3] == quad_index_at(6 * i2 + 3));
            assert(out@[6 * i2 + 4] == quad_index_at(6 * i2 + 4));
            assert(out@[6 * i2 + 5] == quad_index_at(6 * i2 + 5));
        }
    }
    out
}

} // verus!
