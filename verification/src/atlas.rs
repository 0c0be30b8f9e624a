//! Texture-atlas allocator: shelf / row based bin packing of variable-sized
//! bitmaps into fixed-size texture-array layers, with an idempotent cache
//! keyed by opaque `u64` keys.

use vstd::prelude::*;

verus! {

/// Placement of one bitmap inside one atlas layer.
#[derive(Clone, Copy, PartialEq, Eq, Structural, Debug)]
pub struct Allocation {
    pub layer: usize,
    pub x: u32,
    pub y: u32,
    pub width: u32,
    pub height: u32,
}

/// Two placements do not share any pixel: they are separated along at
/// least one axis.
pub open spec fn disjoint(a: Allocation, b: Allocation) -> bool {
    a.x + a.width <= b.x || b.x + b.width <= a.x || a.y + a.height <= b.y || b.y + b.height <= a.y
}

impl Allocation {
    /// The placement lies entirely inside a layer of the given extent.
    pub open spec fn within(self, width: u32, height: u32) -> bool {
        self.x + self.width <= width && self.y + self.height <= height
    }
}

/// Why an upload was refused.
#[derive(Clone, Copy, PartialEq, Eq, Structural, Debug)]
pub enum AtlasError {
    /// No layer, existing or newly creatable within the layer budget, has a
    /// free region large enough for the bitmap.
    AtlasFull,
    /// The bitmap has a zero width or height; such geometry is rejected at
    /// the boundary, before any packing work.
    ZeroSize,
}

/// Packing state of one texture-array layer.  Bitmaps are placed along the
/// current shelf (the row starting at `shelf_y`); `shelf_x` is the first
/// free column of that shelf and `shelf_h` the height of its tallest item.
#[derive(Clone, Copy, PartialEq, Eq, Structural, Debug)]
pub struct AtlasLayer {
    pub shelf_x: u32,
    pub shelf_y: u32,
    pub shelf_h: u32,
}

impl AtlasLayer {
    /// The shelf cursor stays inside a layer of the given extent.
    pub open spec fn wf(self, width: u32, height: u32) -> bool {
        self.shelf_x <= width && self.shelf_y + self.shelf_h <= height
    }

    /// Every placement this layer has handed out so far is either on the
    /// current shelf (same row, left of the cursor, no taller than the
    /// shelf) or on a closed shelf, entirely above the current row.
    pub open spec fn covers(self, a: Allocation) -> bool {
        ||| (a.y == self.shelf_y && a.x + a.width <= self.shelf_x
            && a.y + a.height <= self.shelf_y + self.shelf_h)
        ||| a.y + a.height <= self.shelf_y
    }
}

/// A bitmap of extent `w` by `h` fits on the current shelf of `lay`.
pub open spec fn fits_current_shelf(lay: AtlasLayer, w: u32, h: u32, width: u32, height: u32) -> bool {
    lay.shelf_x + w <= width && lay.shelf_y + h <= height && lay.shelf_y + lay.shelf_h <= height
}

/// A bitmap of extent `w` by `h` fits on a fresh shelf opened below the
/// current one.
pub open spec fn fits_new_shelf(lay: AtlasLayer, w: u32, h: u32, width: u32, height: u32) -> bool {
    w <= width && lay.shelf_y + lay.shelf_h + h <= height
}

/// A bitmap of extent `w` by `h` can be placed somewhere in `lay`.
pub open spec fn layer_fits(lay: AtlasLayer, w: u32, h: u32, width: u32, height: u32) -> bool {
    fits_current_shelf(lay, w, h, width, height) || fits_new_shelf(lay, w, h, width, height)
}

/// Where a bitmap of extent `w` by `h` lands in layer `idx` with packing
/// state `lay`: at the shelf cursor if the current shelf has room, else at
/// the left edge of a fresh shelf.
pub open spec fn placed_alloc(lay: AtlasLayer, idx: int, w: u32, h: u32, width: u32, height: u32) -> Allocation {
    if fits_current_shelf(lay, w, h, width, height) {
        Allocation { layer: idx as usize, x: lay.shelf_x, y: lay.shelf_y, width: w, height: h }
    } else {
        Allocation {
            layer: idx as usize,
            x: 0,
            y: (lay.shelf_y + lay.shelf_h) as u32,
            width: w,
            height: h,
        }
    }
}

/// The packing state of a layer after placing a bitmap of extent `w` by `h`.
pub open spec fn placed_layer(lay: AtlasLayer, w: u32, h: u32, width: u32, height: u32) -> AtlasLayer {
    if fits_current_shelf(lay, w, h, width, height) {
        AtlasLayer {
            shelf_x: (lay.shelf_x + w) as u32,
            shelf_y: lay.shelf_y,
            shelf_h: if h > lay.shelf_h { h } else { lay.shelf_h },
        }
    } else {
        AtlasLayer { shelf_x: w, shelf_y: (lay.shelf_y + lay.shelf_h) as u32, shelf_h: h }
    }
}

/// The first layer index at or after `start` whose shelves can still take a
/// bitmap of extent `w` by `h`, or `layers.len()` when none can.
pub open spec fn first_fit_from(
    layers: Seq<AtlasLayer>,
    start: int,
    w: u32,
    h: u32,
    width: u32,
    height: u32,
) -> int
    decreases layers.len() - start when 0 <= start <= layers.len()
{
    if start >= layers.len() {
        layers.len() as int
    } else if layer_fits(layers[start], w, h, width, height) {
        start
    } else {
        first_fit_from(layers, start + 1, w, h, width, height)
    }
}

/// The placement cached for `key`, scanning from the front.
pub open spec fn cache_lookup(cache: Seq<(u64, Allocation)>, key: u64) -> Option<Allocation>
    decreases cache.len()
{
    if cache.len() == 0 {
        None
    } else if cache[0].0 == key {
        Some(cache[0].1)
    } else {
        cache_lookup(cache.drop_first(), key)
    }
}

/// Texture-atlas allocator over up to `max_layers` layers of fixed
/// `width` by `height` extent.
///
/// `cache` maps each uploaded key to its placement, so re-uploading a key is
/// a lookup, never a re-pack.  The atlas is append-only: placements are
/// never evicted, and an upload that finds no room fails rather than make
/// one.  `pending` holds the pixel bytes of fresh placements, in upload
/// order, for the device-facing layer to copy into the GPU texture before
/// any draw reads the placements.
pub struct Atlas {
    pub width: u32,
    pub height: u32,
    pub max_layers: usize,
    pub layers: Vec<AtlasLayer>,
    pub cache: Vec<(u64, Allocation)>,
    pub pending: Vec<(Allocation, Vec<u8>)>,
}

impl Atlas {
    /// Well-formedness: layer count within budget, shelf cursors inside the
    /// extent, cached keys unique, every cached placement inside its layer's
    /// already-packed region, and no two cached placements of one layer
    /// overlapping.
    pub open spec fn wf(self) -> bool {
        &&& self.layers.len() <= self.max_layers
        &&& forall|l: int| 0 <= l < self.layers.len() ==> (#[trigger] self.layers[l]).wf(self.width, self.height)
        &&& forall|i: int, j: int|
            0 <= i < j < self.cache.len() ==> (#[trigger] self.cache[i]).0 != (#[trigger] self.cache[j]).0
        &&& forall|i: int|
            0 <= i < self.cache.len() ==> {
                let a = (#[trigger] self.cache[i]).1;
                &&& a.layer < self.layers.len()
                &&& a.width > 0
                &&& a.height > 0
                &&& a.within(self.width, self.height)
                &&& self.layers[a.layer as int].covers(a)
            }
        &&& forall|i: int, j: int|
            0 <= i < self.cache.len() && 0 <= j < self.cache.len() && i != j
                && (#[trigger] self.cache[i]).1.layer == (#[trigger] self.cache[j]).1.layer
                ==> disjoint(self.cache[i].1, self.cache[j].1)
    }

    /// A fresh atlas: fixed extent, a layer budget, no layers yet.
    pub fn new(width: u32, height: u32, max_layers: usize) -> (r: Atlas)
        ensures
            r.wf(),
            r.width == width,
            r.height == height,
            r.max_layers == max_layers,
            r.layers@ =~= Seq::<AtlasLayer>::empty(),
            r.cache@ =~= Seq::<(u64, Allocation)>::empty(),
            r.pending@ =~= Seq::<(Allocation, Vec<u8>)>::empty(),
    {
        Atlas {
            width,
            height,
            max_layers,
            layers: Vec::new(),
            cache: Vec::new(),
            pending: Vec::new(),
        }
    }

    /// Cache lookup: the placement already uploaded for `key`, with no
    /// packing work.
    pub fn get(&self, key: u64) -> (r: Option<Allocation>)
        ensures
            r == cache_lookup(self.cache@, key),
    {
        let n = self.cache.len();
        let mut i: usize = 0;
        proof {
            assert(self.cache@.skip(0) =~= self.cache@);
        }
        while i < n
            invariant
                0 <= i <= n,
                n == self.cache.len(),
                cache_lookup(self.cache@, key) == cache_lookup(self.cache@.skip(i as int), key),
            decreases n - i,
        {
            proof {
                assert(self.cache@.skip(i as int)[0] == self.cache@[i as int]);
                assert(self.cache@.skip(i as int).drop_first() =~= self.cache@.skip(i as int + 1));
            }
            if self.cache[i].0 == key {
                return Some(self.cache[i].1);
            }
            i = i + 1;
        }
        proof {
            assert(self.cache@.skip(n as int) =~= Seq::<(u64, Allocation)>::empty());
        }
        None
    }

    /// Number of cached placements.
    pub fn cache_len(&self) -> (r: usize)
        ensures
            r == self.cache@.len(),
    {
        self.cache.len()
    }

    /// Packs the bitmap `pixels` (RGBA8, `width * height * 4` bytes) under
    /// `key`, searching layers first-fit from `layer_hint`.
    ///
    /// An already-cached key returns its first placement unchanged, without
    /// touching the packer or staging any pixels.  Zero-sized bitmaps are
    /// rejected at the boundary.  A bitmap wider or taller than one layer
    /// fails with `AtlasFull` regardless of free space.  Otherwise the
    /// bitmap lands at the exact shelf position of the first layer with
    /// room, a new layer being opened when none has and the budget allows;
    /// `AtlasFull` comes exactly when no layer fits and the budget is spent.
    pub fn upload(
        &mut self,
        key: u64,
        pixels: Vec<u8>,
        width: u32,
        height: u32,
        layer_hint: usize,
    ) -> (r: Result<Allocation, AtlasError>)
        requires
            old(self).wf(),
            pixels@.len() == 4 * width * height,
        ensures
            final(self).wf(),
            final(self).width == old(self).width,
            final(self).height == old(self).height,
            final(self).max_layers == old(self).max_layers,
            ({
                let aw = old(self).width;
                let ah = old(self).height;
                let start = if layer_hint <= old(self).layers.len() {
                    layer_hint as int
                } else {
                    old(self).layers.len() as int
                };
                let f = first_fit_from(old(self).layers@, start, width, height, aw, ah);
                match cache_lookup(old(self).cache@, key) {
                    Some(a) => r == Result::<Allocation, AtlasError>::Ok(a) && *final(self) == *old(self),
                    None => {
                        if width == 0 || height == 0 {
                            r == Result::<Allocation, AtlasError>::Err(AtlasError::ZeroSize)
                                && *final(self) == *old(self)
                        } else if width > aw || height > ah {
                            r == Result::<Allocation, AtlasError>::Err(AtlasError::AtlasFull)
                                && *final(self) == *old(self)
                        } else if f < old(self).layers.len() {
                            let a = placed_alloc(old(self).layers@[f], f, width, height, aw, ah);
                            &&& r == Result::<Allocation, AtlasError>::Ok(a)
                            &&& final(self).layers@ =~= old(self).layers@.update(
                                f,
                                placed_layer(old(self).layers@[f], width, height, aw, ah),
                            )
                            &&& final(self).cache@ =~= old(self).cache@.push((key, a))
                            &&& final(self).pending@ =~= old(self).pending@.push((a, pixels))
                        } else if old(self).layers.len() < old(self).max_layers {
                            let a = Allocation {
                                layer: old(self).layers.len(),
                                x: 0,
                                y: 0,
                                width,
                                height,
                            };
                            &&& r == Result::<Allocation, AtlasError>::Ok(a)
                            &&& final(self).layers@ =~= old(self).layers@.push(
                                AtlasLayer { shelf_x: width, shelf_y: 0, shelf_h: height },
                            )
                            &&& final(self).cache@ =~= old(self).cache@.push((key, a))
                            &&& final(self).pending@ =~= old(self).pending@.push((a, pixels))
                        } else {
                            r == Result::<Allocation, AtlasError>::Err(AtlasError::AtlasFull)
                                && *final(self) == *old(self)
                        }
                    },
                }
            }),
            r matches Ok(a) ==> cache_lookup(final(self).cache@, key) == Some(a),
            old(self).cache@.is_prefix_of(final(self).cache@),
    {
        if let Some(a) = self.get(key) {
            return Ok(a);
        }
        proof {
            lemma_cache_lookup_none(self.cache@, key);
        }
        if width == 0 || height == 0 {
            return Err(AtlasError::ZeroSize);
        }
        if width > self.width || height > self.height {
            return Err(AtlasError::AtlasFull);
        }

        let n = self.layers.len();
        let start: usize = if layer_hint <= n { layer_hint } else { n };
        let f = self.find_fit(start, width, height);
        proof {
            lemma_first_fit_found(self.layers@, start as int, width, height, self.width, self.height);
        }

        if f < n {
            let lay = self.layers[f];
            let a: Allocation;
            if (lay.shelf_x as u64) + (width as u64) <= self.width as u64
                && (lay.shelf_y as u64) + (height as u64) <= self.height as u64
                && (lay.shelf_y as u64) + (lay.shelf_h as u64) <= self.height as u64
            {
                a = Allocation { layer: f, x: lay.shelf_x, y: lay.shelf_y, width, height };
                let grown_h = if height > lay.shelf_h { height } else { lay.shelf_h };
                self.layers[f] = AtlasLayer {
                    shelf_x: lay.shelf_x + width,
                    shelf_y: lay.shelf_y,
                    shelf_h: grown_h,
                };
            } else {
                a = Allocation { layer: f, x: 0, y: lay.shelf_y + lay.shelf_h, width, height };
                self.layers[f] = AtlasLayer {
                    shelf_x: width,
                    shelf_y: lay.shelf_y + lay.shelf_h,
                    shelf_h: height,
                };
            }
            self.cache.push((key, a));
            self.pending.push((a, pixels));
            proof {
                lemma_cache_lookup_push(old(self).cache@, key, a);
                lemma_upload_wf_placed(*old(self), *self, a, f as int, key, width, height);
                assert(old(self).cache@.is_prefix_of(self.cache@)) by {
                    assert(self.cache@.take(old(self).cache@.len() as int) =~= old(self).cache@);
                }
            }
            return Ok(a);
        }

        if n < self.max_layers {
            let a = Allocation { layer: n, x: 0, y: 0, width, height };
            self.layers.push(AtlasLayer { shelf_x: width, shelf_y: 0, shelf_h: height });
            self.cache.push((key, a));
            self.pending.push((a, pixels));
            proof {
                lemma_cache_lookup_push(old(self).cache@, key, a);
                lemma_upload_wf_new_layer(*old(self), *self, a, key, width, height);
                assert(old(self).cache@.is_prefix_of(self.cache@)) by {
                    assert(self.cache@.take(old(self).cache@.len() as int) =~= old(self).cache@);
                }
            }
            return Ok(a);
        }
        Err(AtlasError::AtlasFull)
    }

    /// First-fit search: the index of the first layer at or after `start`
    /// with room for a bitmap of extent `w` by `h`, or the layer count when
    /// none has.
    fn find_fit(&self, start: usize, w: u32, h: u32) -> (r: usize)
        requires
            start <= self.layers.len(),
        ensures
            r == first_fit_from(self.layers@, start as int, w, h, self.width, self.height),
            r <= self.layers.len(),
    {
        let n = self.layers.len();
        let mut l: usize = start;
        while l < n
            invariant
                start <= l <= n,
                n == self.layers.len(),
                first_fit_from(self.layers@, start as int, w, h, self.width, self.height)
                    == first_fit_from(self.layers@, l as int, w, h, self.width, self.height),
            decreases n - l,
        {
            let lay = self.layers[l];
            let on_current = (lay.shelf_x as u64) + (w as u64) <= self.width as u64
                && (lay.shelf_y as u64) + (h as u64) <= self.height as u64
                && (lay.shelf_y as u64) + (lay.shelf_h as u64) <= self.height as u64;
            let on_new = w <= self.width
                && (lay.shelf_y as u64) + (lay.shelf_h as u64) + (h as u64) <= self.height as u64;
            if on_current || on_new {
                return l;
            }
            l = l + 1;
        }
        n
    }
}

/// The index that the first-fit search returns lies between its start and
/// the layer count, and when it is a real layer, that layer fits.
proof fn lemma_first_fit_found(layers: Seq<AtlasLayer>, start: int, w: u32, h: u32, width: u32, height: u32)
    requires
        0 <= start <= layers.len(),
    ensures
        start <= first_fit_from(layers, start, w, h, width, height) <= layers.len(),
        first_fit_from(layers, start, w, h, width, height) < layers.len()
            ==> layer_fits(layers[first_fit_from(layers, start, w, h, width, height)], w, h, width, height),
    decreases layers.len() - start,
{
    if start < layers.len() && !layer_fits(layers[start], w, h, width, height) {
        lemma_first_fit_found(layers, start + 1, w, h, width, height);
    }
}

/// A key that `cache_lookup` misses is carried by no entry.
proof fn lemma_cache_lookup_none(cache: Seq<(u64, Allocation)>, key: u64)
    requires
        cache_lookup(cache, key) is None,
    ensures
        forall|i: int| 0 <= i < cache.len() ==> (#[trigger] cache[i]).0 != key,
    decreases cache.len(),
{
    if cache.len() > 0 {
        lemma_cache_lookup_none(cache.drop_first(), key);
        assert forall|i: int| 0 <= i < cache.len() implies (#[trigger] cache[i]).0 != key by {
            if i > 0 {
                assert(cache.drop_first()[i - 1] == cache[i]);
            }
        }
    }
}

/// Appending an entry for a missing key makes that key found, with the
/// appended placement.
pub proof fn lemma_cache_lookup_push(cache: Seq<(u64, Allocation)>, key: u64, a: Allocation)
    requires
        cache_lookup(cache, key) is None,
    ensures
        cache_lookup(cache.push((key, a)), key) == Some(a),
    decreases cache.len(),
{
    if cache.len() == 0 {
        assert(cache.push((key, a))[0] == (key, a));
    } else {
        lemma_cache_lookup_push(cache.drop_first(), key, a);
        assert(cache.push((key, a))[0] == cache[0]);
        assert(cache.push((key, a)).drop_first() =~= cache.drop_first().push((key, a)));
    }
}

/// Placing a bitmap at the shelf position of layer `f` and appending the
/// cache entry keeps the atlas invariant: the fresh rectangle is covered by
/// the advanced shelf state and disjoint from every older placement of the
/// same layer.
proof fn lemma_upload_wf_placed(pre: Atlas, fin: Atlas, a: Allocation, f: int, key: u64, w: u32, h: u32)
    requires
        pre.wf(),
        0 <= f < pre.layers.len(),
        0 < w <= pre.width,
        0 < h <= pre.height,
        layer_fits(pre.layers@[f], w, h, pre.width, pre.height),
        a == placed_alloc(pre.layers@[f], f, w, h, pre.width, pre.height),
        forall|i: int| 0 <= i < pre.cache.len() ==> (#[trigger] pre.cache@[i]).0 != key,
        fin.width == pre.width,
        fin.height == pre.height,
        fin.max_layers == pre.max_layers,
        fin.cache@ =~= pre.cache@.push((key, a)),
        fin.layers@ =~= pre.layers@.update(f, placed_layer(pre.layers@[f], w, h, pre.width, pre.height)),
    ensures
        fin.wf(),
{
    let lay = pre.layers@[f];
    let lay2 = placed_layer(lay, w, h, pre.width, pre.height);
    assert(lay.wf(pre.width, pre.height));
    assert(lay2.wf(pre.width, pre.height));
    assert(a.within(pre.width, pre.height));
    assert(lay2.covers(a));
    assert forall|i: int| 0 <= i < fin.cache@.len() implies {
        let b = (#[trigger] fin.cache@[i]).1;
        &&& b.layer < fin.layers.len()
        &&& b.width > 0
        &&& b.height > 0
        &&& b.within(fin.width, fin.height)
        &&& fin.layers@[b.layer as int].covers(b)
    } by {
        if i < pre.cache@.len() {
            let b = pre.cache@[i].1;
            assert(pre.layers@[b.layer as int].covers(b));
            if b.layer == f {
                assert(lay.covers(b));
                assert(lay2.covers(b));
            }
        }
    }
    assert forall|i: int, j: int|
        0 <= i < fin.cache@.len() && 0 <= j < fin.cache@.len() && i != j
            && (#[trigger] fin.cache@[i]).1.layer == (#[trigger] fin.cache@[j]).1.layer
        implies disjoint(fin.cache@[i].1, fin.cache@[j].1) by {
        let pn = pre.cache@.len() as int;
        if i < pn && j < pn {
        } else if i < pn && j == pn {
            let b = pre.cache@[i].1;
            if b.layer == f {
                assert(lay.covers(b));
            }
        } else if j < pn && i == pn {
            let b = pre.cache@[j].1;
            if b.layer == f {
                assert(lay.covers(b));
            }
        }
    }
}

/// Opening a fresh layer for the bitmap and appending the cache entry keeps
/// the atlas invariant: the new placement sits alone at the origin of the
/// new layer.
proof fn lemma_upload_wf_new_layer(pre: Atlas, fin: Atlas, a: Allocation, key: u64, w: u32, h: u32)
    requires
        pre.wf(),
        pre.layers.len() < pre.max_layers,
        0 < w <= pre.width,
        0 < h <= pre.height,
        a == (Allocation { layer: pre.layers.len(), x: 0, y: 0, width: w, height: h }),
        forall|i: int| 0 <= i < pre.cache.len() ==> (#[trigger] pre.cache@[i]).0 != key,
        fin.width == pre.width,
        fin.height == pre.height,
        fin.max_layers == pre.max_layers,
        fin.cache@ =~= pre.cache@.push((key, a)),
        fin.layers@ =~= pre.layers@.push(AtlasLayer { shelf_x: w, shelf_y: 0, shelf_h: h }),
    ensures
        fin.wf(),
{
    let nl = AtlasLayer { shelf_x: w, shelf_y: 0, shelf_h: h };
    assert(nl.wf(pre.width, pre.height));
    assert(nl.covers(a));
    assert forall|i: int| 0 <= i < fin.cache@.len() implies {
        let b = (#[trigger] fin.cache@[i]).1;
        &&& b.layer < fin.layers.len()
        &&& b.width > 0
        &&& b.height > 0
        &&& b.within(fin.width, fin.height)
        &&& fin.layers@[b.layer as int].covers(b)
    } by {
        if i < pre.cache@.len() {
            let b = pre.cache@[i].1;
            assert(pre.layers@[b.layer as int].covers(b));
        }
    }
    assert forall|i: int, j: int|
        0 <= i < fin.cache@.len() && 0 <= j < fin.cache@.len() && i != j
            && (#[trigger] fin.cache@[i]).1.layer == (#[trigger] fin.cache@[j]).1.layer
        implies disjoint(fin.cache@[i].1, fin.cache@[j].1) by {
        let pn = pre.cache@.len() as int;
        if i < pn && j == pn {
            assert(pre.cache@[i].1.layer < pre.layers.len());
        } else if j < pn && i == pn {
            assert(pre.cache@[j].1.layer < pre.layers.len());
        }
    }
}

/// No two concurrently-live placements within one layer overlap: straight
/// from the atlas invariant, stated on its own so callers can use it for
/// any two cached entries.
pub proof fn lemma_no_overlap(a: Atlas, i: int, j: int)
    requires
        a.wf(),
        0 <= i < a.cache.len(),
        0 <= j < a.cache.len(),
        i != j,
        a.cache[i].1.layer == a.cache[j].1.layer,
    ensures
        disjoint(a.cache[i].1, a.cache[j].1),
{
}

/// A found cache entry is a real entry of the cache.
pub proof fn lemma_cache_lookup_entry(cache: Seq<(u64, Allocation)>, key: u64)
    ensures
        cache_lookup(cache, key) matches Some(a) ==> exists|i: int|
            0 <= i < cache.len() && cache[i] == (key, a),
    decreases cache.len(),
{
    if cache.len() > 0 {
        lemma_cache_lookup_entry(cache.drop_first(), key);
        if cache[0].0 != key && cache_lookup(cache, key) is Some {
            let a = cache_lookup(cache, key)->Some_0;
            let i = choose|i: int|
                0 <= i < cache.drop_first().len() && cache.drop_first()[i] == (key, a);
            assert(cache[i + 1] == (key, a));
        }
    }
}

/// Growing a cache that keeps its old entries as a prefix keeps every found
/// key found, with the same placement.
/// Appending an entry leaves every other key's lookup unchanged.
pub proof fn lemma_cache_lookup_push_other(cache: Seq<(u64, Allocation)>, key: u64, a: Allocation)
    ensures
        forall|k: u64|
            k != key ==> #[trigger] cache_lookup(cache.push((key, a)), k) == cache_lookup(cache, k),
    decreases cache.len(),
{
    if cache.len() == 0 {
        assert forall|k: u64| k != key implies #[trigger] cache_lookup(cache.push((key, a)), k)
            == cache_lookup(cache, k) by {
            assert(cache.push((key, a))[0] == (key, a));
            assert(cache.push((key, a)).drop_first() =~= cache);
        }
    } else {
        lemma_cache_lookup_push_other(cache.drop_first(), key, a);
        assert forall|k: u64| k != key implies #[trigger] cache_lookup(cache.push((key, a)), k)
            == cache_lookup(cache, k) by {
            assert(cache.push((key, a))[0] == cache[0]);
            assert(cache.push((key, a)).drop_first() =~= cache.drop_first().push((key, a)));
            if cache[0].0 != k {
                assert(cache_lookup(cache.drop_first().push((key, a)), k)
                    == cache_lookup(cache.drop_first(), k));
            }
        }
    }
}

pub proof fn lemma_cache_lookup_stable(c1: Seq<(u64, Allocation)>, c2: Seq<(u64, Allocation)>)
    requires
        c1.is_prefix_of(c2),
    ensures
        forall|k: u64|
            cache_lookup(c1, k) is Some ==> #[trigger] cache_lookup(c2, k) == cache_lookup(c1, k),
    decreases c1.len(),
{
    if c1.len() > 0 {
        assert(c1[0] == c2.subrange(0, c1.len() as int)[0]);
        assert forall|i: int| 0 <= i < c1.drop_first().len() implies c1.drop_first()[i]
            == c2.drop_first()[i] by {
            assert(c1[i + 1] == c2.subrange(0, c1.len() as int)[i + 1]);
        }
        assert(c1.drop_first() =~= c2.drop_first().subrange(0, c1.drop_first().len() as int));
        lemma_cache_lookup_stable(c1.drop_first(), c2.drop_first());
        assert forall|k: u64| cache_lookup(c1, k) is Some implies #[trigger] cache_lookup(c2, k)
            == cache_lookup(c1, k) by {
            assert(c2[0] == c1[0]);
            if c1[0].0 != k {
                assert(cache_lookup(c1, k) == cache_lookup(c1.drop_first(), k));
                assert(cache_lookup(c2.drop_first(), k) == cache_lookup(c1.drop_first(), k));
                assert(cache_lookup(c2, k) == cache_lookup(c2.drop_first(), k));
            }
        }
    }
}

/// Prefixes compose.
pub proof fn lemma_prefix_trans(a: Seq<(u64, Allocation)>, b: Seq<(u64, Allocation)>, c: Seq<(u64, Allocation)>)
    requires
        a.is_prefix_of(b),
        b.is_prefix_of(c),
    ensures
        a.is_prefix_of(c),
{
    assert(a =~= c.take(a.len() as int));
}

} // verus!
