//! Tile sheets: cuts a source texture into fixed-size tiles, uploads the
//! distinct ones into the atlas, and keeps per-tile placement records so an
//! editor can map every grid cell back to its pixels.  Fully transparent
//! tiles and solid black tiles are folded onto two shared placeholder
//! placements that are uploaded once, when the atlas is still empty.

use crate::atlas::{
    cache_lookup, lemma_cache_lookup_entry, lemma_cache_lookup_push, lemma_cache_lookup_push_other,
    lemma_cache_lookup_stable, lemma_prefix_trans, Allocation, Atlas,
};
use vstd::prelude::*;

verus! {

/// Cache key of the shared fully-transparent placeholder tile.
pub const EMPTY_TILE_KEY: u64 = 0;

/// Cache key of the shared solid-black placeholder tile.
pub const BLACK_TILE_KEY: u64 = 1;

/// Maps one grid cell of the sheet back to the atlas: the cell's pixel
/// position in the source texture and the placement it was folded onto.
#[derive(Clone, Copy, PartialEq, Eq, Structural, Debug)]
pub struct Tile {
    pub x: u32,
    pub y: u32,
    pub layer: usize,
    pub id: u32,
}

/// One source texture cut into tiles.
pub struct TileSheet {
    pub tiles: Vec<Tile>,
}

/// Byte offset of tile `id`'s pixel `(x, y)` inside the row-major RGBA8
/// source texture of pixel width `tw`: the cell sits at column `id % sw`
/// and row `id / sw` of the tile grid, `sw` cells per row.
pub open spec fn src_off(id: int, x: int, y: int, sw: int, ts: int, tw: int) -> int {
    4 * (((id / sw) * ts + y) * tw + (id % sw) * ts + x)
}

/// Tile `id` is fully transparent: every pixel's alpha byte is zero.
pub open spec fn tile_transparent(bytes: Seq<u8>, id: int, sw: int, ts: int, tw: int) -> bool {
    forall|x: int, y: int|
        0 <= x < ts && 0 <= y < ts ==> bytes[#[trigger] src_off(id, x, y, sw, ts, tw) + 3] == 0
}

/// Tile `id` is solid opaque black: every pixel is `(0, 0, 0, 255)`.
pub open spec fn tile_black(bytes: Seq<u8>, id: int, sw: int, ts: int, tw: int) -> bool {
    forall|x: int, y: int|
        0 <= x < ts && 0 <= y < ts ==> {
            let o = #[trigger] src_off(id, x, y, sw, ts, tw);
            bytes[o] == 0 && bytes[o + 1] == 0 && bytes[o + 2] == 0 && bytes[o + 3] == 255
        }
}

/// What the sheet records for grid cell `id`: the cell's pixel origin in
/// the source texture, and either a shared placeholder (transparent or
/// black) or the atlas placement cached under the cell's key, identified by
/// the placement's tile-grid index inside the atlas.
pub open spec fn tile_matches(
    bytes: Seq<u8>,
    id: int,
    sw: int,
    ts: int,
    tw: int,
    key_base: u64,
    cache: Seq<(u64, Allocation)>,
    atlas_w: int,
    tile: Tile,
) -> bool {
    &&& tile.x == (id % sw) * ts
    &&& tile.y == (id / sw) * ts
    &&& if tile_transparent(bytes, id, sw, ts, tw) {
        tile.layer == 0 && tile.id == 0
    } else if tile_black(bytes, id, sw, ts, tw) {
        tile.layer == 0 && tile.id == 1
    } else {
        match cache_lookup(cache, (key_base + id) as u64) {
            Some(a) => tile.layer == a.layer && tile.id == a.x as int / ts + (a.y as int / ts) * (atlas_w / ts),
            None => false,
        }
    }
}

/// Every key missing from the cache at the call's start is, afterwards,
/// either still missing or placed at tile extent: all this call uploads are
/// `ts` by `ts` bitmaps.
pub open spec fn fresh_keys_sized(
    pre: Seq<(u64, Allocation)>,
    post: Seq<(u64, Allocation)>,
    ts: u32,
) -> bool {
    forall|k: u64|
        cache_lookup(pre, k) is None ==> match #[trigger] cache_lookup(post, k) {
            Some(a) => a.width == ts && a.height == ts,
            None => true,
        }
}

/// The call grows the cache only under its own keys: the two placeholder
/// keys and the sheet's `key_base + id` band.
pub open spec fn keys_from_sheet(
    pre: Seq<(u64, Allocation)>,
    post: Seq<(u64, Allocation)>,
    key_base: u64,
    count: int,
) -> bool {
    forall|k: u64|
        #[trigger] cache_lookup(post, k) is Some ==> cache_lookup(pre, k) is Some
            || k == EMPTY_TILE_KEY || k == BLACK_TILE_KEY
            || (key_base <= k && k < key_base + count)
}

impl TileSheet {
    /// Cuts the `width` by `height` RGBA8 source `bytes` into `tilesize`
    /// tiles and uploads each distinct one under `key_base + id`, seeding
    /// the shared placeholder tiles into an empty atlas first.  Returns the
    /// per-cell placement records, in increasing cell order, or `None` when
    /// the atlas ran out of room (a tile larger than a layer, or the layer
    /// budget spent); uploads made before an in-call failure stay cached.
    pub fn new(
        bytes: &Vec<u8>,
        width: u32,
        height: u32,
        key_base: u64,
        atlas: &mut Atlas,
        tilesize: u32,
    ) -> (r: Option<TileSheet>)
        requires
            old(atlas).wf(),
            tilesize > 0,
            bytes@.len() == 4 * width * height,
            (width / tilesize) * (height / tilesize) <= u32::MAX,
            (width / tilesize) * (height / tilesize) <= usize::MAX,
            key_base + (width / tilesize) * (height / tilesize) <= u64::MAX,
            (old(atlas).width / tilesize) * (old(atlas).height / tilesize) + (old(atlas).width / tilesize)
                <= u32::MAX,
        ensures
            final(atlas).wf(),
            final(atlas).width == old(atlas).width,
            final(atlas).height == old(atlas).height,
            final(atlas).max_layers == old(atlas).max_layers,
            old(atlas).cache@.is_prefix_of(final(atlas).cache@),
            fresh_keys_sized(old(atlas).cache@, final(atlas).cache@, tilesize),
            keys_from_sheet(
                old(atlas).cache@,
                final(atlas).cache@,
                key_base,
                (width / tilesize) * (height / tilesize),
            ),
            old(atlas).cache@.len() == 0 && r is Some ==> {
                &&& cache_lookup(final(atlas).cache@, EMPTY_TILE_KEY) is Some
                &&& cache_lookup(final(atlas).cache@, BLACK_TILE_KEY) is Some
                &&& tilesize <= old(atlas).width
                &&& tilesize <= old(atlas).height
            },
            r matches Some(sheet) ==> {
                let sw = width as int / tilesize as int;
                let sh = height as int / tilesize as int;
                &&& sheet.tiles@.len() == sw * sh
                &&& forall|id: int|
                    0 <= id < sheet.tiles@.len() ==> tile_matches(
                        bytes@,
                        id,
                        sw,
                        tilesize as int,
                        width as int,
                        key_base,
                        final(atlas).cache@,
                        final(atlas).width as int,
                        #[trigger] sheet.tiles@[id],
                    )
            },
            r is None ==> {
                let sw = width as int / tilesize as int;
                let ts = tilesize as int;
                let tw = width as int;
                &&& (tilesize > old(atlas).width || tilesize > old(atlas).height
                    || final(atlas).layers@.len() == final(atlas).max_layers)
                &&& ({
                    ||| (old(atlas).cache@.len() == 0
                        && (cache_lookup(final(atlas).cache@, EMPTY_TILE_KEY) is None
                            || cache_lookup(final(atlas).cache@, BLACK_TILE_KEY) is None))
                    ||| (exists|m: int|
                        0 <= m < (width / tilesize) * (height / tilesize)
                            && !tile_transparent(bytes@, m, sw, ts, tw)
                            && !tile_black(bytes@, m, sw, ts, tw)
                            && #[trigger] cache_lookup(final(atlas).cache@, (key_base + m) as u64) is None
                            && forall|id: int|
                                0 <= id < m ==> tile_transparent(bytes@, id, sw, ts, tw)
                                    || tile_black(bytes@, id, sw, ts, tw)
                                    || #[trigger] cache_lookup(
                                        final(atlas).cache@,
                                        (key_base + id) as u64,
                                    ) is Some)
                })
            },
    {
        let sw = width / tilesize;
        let sh = height / tilesize;
        let tilecount = sw * sh;

        if atlas.cache_len() == 0 {
            if !seed_placeholders(atlas, tilesize, key_base, tilecount) {
                return None;
            }
        }

        let mut tiles: Vec<Tile> = Vec::new();
        let mut id: u32 = 0;
        while id < tilecount
            invariant
                atlas.wf(),
                atlas.width == old(atlas).width,
                atlas.height == old(atlas).height,
                atlas.max_layers == old(atlas).max_layers,
                old(atlas).cache@.is_prefix_of(atlas.cache@),
                fresh_keys_sized(old(atlas).cache@, atlas.cache@, tilesize),
                keys_from_sheet(old(atlas).cache@, atlas.cache@, key_base, tilecount as int),
                old(atlas).cache@.len() == 0 ==> {
                    &&& cache_lookup(atlas.cache@, EMPTY_TILE_KEY) is Some
                    &&& cache_lookup(atlas.cache@, BLACK_TILE_KEY) is Some
                    &&& tilesize <= old(atlas).width
                    &&& tilesize <= old(atlas).height
                },
                tilesize > 0,
                sw == width / tilesize,
                sh == height / tilesize,
                tilecount == sw * sh,
                bytes@.len() == 4 * width * height,
                tilecount <= u32::MAX,
                tilecount <= usize::MAX,
                key_base + tilecount <= u64::MAX,
                (old(atlas).width / tilesize) * (old(atlas).height / tilesize)
                    + (old(atlas).width / tilesize) <= u32::MAX,
                0 <= id <= tilecount,
                tiles@.len() == id,
                forall|i: int|
                    0 <= i < id ==> tile_matches(
                        bytes@,
                        i,
                        sw as int,
                        tilesize as int,
                        width as int,
                        key_base,
                        atlas.cache@,
                        atlas.width as int,
                        #[trigger] tiles@[i],
                    ),
            decreases tilecount - id,
        {
            proof {
                assert(sw >= 1 && sh >= 1) by (nonlinear_arith)
                    requires tilecount == sw * sh, id < tilecount, sw >= 0, sh >= 0;
                lemma_cell_in_grid(
                    id as int,
                    sw as int,
                    sh as int,
                    tilesize as int,
                    width as int,
                    height as int,
                );
            }
            let tilex = (id % sw) * tilesize;
            let tiley = (id / sw) * tilesize;

            if tile_is_transparent(bytes, id, sw, tilesize, width, height) {
                tiles.push(Tile { x: tilex, y: tiley, layer: 0, id: 0 });
            } else if tile_is_black(bytes, id, sw, tilesize, width, height) {
                tiles.push(Tile { x: tilex, y: tiley, layer: 0, id: 1 });
            } else {
                let ghost cache_before = atlas.cache@;
                let pixels = extract_tile(bytes, id, sw, tilesize, width, height);
                let key = key_base + (id as u64);
                let a = match atlas.upload(key, pixels, tilesize, tilesize, 0) {
                    Ok(a) => a,
                    Err(_) => {
                        proof {
                            assert forall|i: int|
                                0 <= i < id implies tile_transparent(
                                bytes@,
                                i,
                                sw as int,
                                tilesize as int,
                                width as int,
                            ) || tile_black(bytes@, i, sw as int, tilesize as int, width as int)
                                || #[trigger] cache_lookup(atlas.cache@, (key_base + i) as u64) is Some by {
                                assert(tile_matches(
                                    bytes@,
                                    i,
                                    sw as int,
                                    tilesize as int,
                                    width as int,
                                    key_base,
                                    atlas.cache@,
                                    atlas.width as int,
                                    tiles@[i],
                                ));
                            }
                        }
                        return None;
                    },
                };
                proof {
                    if cache_lookup(cache_before, key) is None {
                        lemma_cache_lookup_push(cache_before, key, a);
                        lemma_cache_lookup_push_other(cache_before, key, a);
                        lemma_fresh_sized_push(old(atlas).cache@, cache_before, key, a, tilesize);
                        lemma_keys_from_sheet_push(
                            old(atlas).cache@,
                            cache_before,
                            key,
                            a,
                            key_base,
                            tilecount as int,
                        );
                    }
                    assert(cache_before.is_prefix_of(atlas.cache@)) by {
                        assert(cache_before =~= atlas.cache@.take(cache_before.len() as int));
                    }
                    lemma_cache_lookup_entry(atlas.cache@, key);
                    let i = choose|i: int|
                        0 <= i < atlas.cache@.len() && atlas.cache@[i] == (key, a);
                    assert(a.within(atlas.width, atlas.height));
                    assert(a.x as int / tilesize as int <= atlas.width as int / tilesize as int)
                        by (nonlinear_arith)
                        requires a.x <= atlas.width, tilesize >= 1;
                    assert(a.y as int / tilesize as int <= atlas.height as int / tilesize as int)
                        by (nonlinear_arith)
                        requires a.y <= atlas.height, tilesize >= 1;
                    assert((a.y as int / tilesize as int) * (atlas.width as int / tilesize as int)
                        <= (atlas.height as int / tilesize as int) * (atlas.width as int / tilesize as int))
                        by (nonlinear_arith)
                        requires
                            0 <= a.y as int / tilesize as int,
                            a.y as int / tilesize as int <= atlas.height as int / tilesize as int,
                            atlas.width as int / tilesize as int >= 0;
                    assert((atlas.height as int / tilesize as int) * (atlas.width as int
                        / tilesize as int) == (atlas.width as int / tilesize as int) * (atlas.height as int
                        / tilesize as int)) by (nonlinear_arith);
                    assert(a.x as int / tilesize as int + (a.y as int / tilesize as int)
                        * (atlas.width as int / tilesize as int) <= u32::MAX);
                }
                let tid = (a.x / tilesize) + (a.y / tilesize) * (atlas.width / tilesize);
                tiles.push(Tile { x: tilex, y: tiley, layer: a.layer, id: tid });
                proof {
                    lemma_cache_lookup_stable(cache_before, atlas.cache@);
                    lemma_cache_grow_keeps_matches(
                        bytes@,
                        id as int,
                        sw as int,
                        tilesize as int,
                        width as int,
                        key_base,
                        cache_before,
                        atlas.cache@,
                        atlas.width as int,
                        tiles@,
                    );
                    lemma_prefix_trans(old(atlas).cache@, cache_before, atlas.cache@);
                }
            }
            id = id + 1;
        }
        Some(TileSheet { tiles })
    }

    /// Uploads every tile of the sheet under `key_base + id`, seeding the
    /// placeholder tiles into an empty atlas first, without keeping any
    /// records.  Returns `None` when the atlas ran out of room; uploads
    /// made before an in-call failure stay cached.
    pub fn upload(
        bytes: &Vec<u8>,
        width: u32,
        height: u32,
        key_base: u64,
        atlas: &mut Atlas,
        tilesize: u32,
    ) -> (r: Option<()>)
        requires
            old(atlas).wf(),
            tilesize > 0,
            bytes@.len() == 4 * width * height,
            (width / tilesize) * (height / tilesize) <= u32::MAX,
            key_base + (width / tilesize) * (height / tilesize) <= u64::MAX,
        ensures
            final(atlas).wf(),
            final(atlas).width == old(atlas).width,
            final(atlas).height == old(atlas).height,
            final(atlas).max_layers == old(atlas).max_layers,
            old(atlas).cache@.is_prefix_of(final(atlas).cache@),
            fresh_keys_sized(old(atlas).cache@, final(atlas).cache@, tilesize),
            keys_from_sheet(
                old(atlas).cache@,
                final(atlas).cache@,
                key_base,
                (width / tilesize) * (height / tilesize),
            ),
            old(atlas).cache@.len() == 0 && r is Some ==> {
                &&& cache_lookup(final(atlas).cache@, EMPTY_TILE_KEY) is Some
                &&& cache_lookup(final(atlas).cache@, BLACK_TILE_KEY) is Some
                &&& tilesize <= old(atlas).width
                &&& tilesize <= old(atlas).height
            },
            r is Some ==> forall|id: int|
                0 <= id < (width / tilesize) * (height / tilesize)
                    ==> (#[trigger] cache_lookup(final(atlas).cache@, (key_base + id) as u64)) is Some,
            r is Some && (width / tilesize) * (height / tilesize) > 0
                && cache_lookup(old(atlas).cache@, key_base) is None
                ==> tilesize <= old(atlas).width && tilesize <= old(atlas).height,
            r is None ==> {
                &&& (tilesize > old(atlas).width || tilesize > old(atlas).height
                    || final(atlas).layers@.len() == final(atlas).max_layers)
                &&& ({
                    ||| (old(atlas).cache@.len() == 0
                        && (cache_lookup(final(atlas).cache@, EMPTY_TILE_KEY) is None
                            || cache_lookup(final(atlas).cache@, BLACK_TILE_KEY) is None))
                    ||| (exists|m: int|
                        0 <= m < (width / tilesize) * (height / tilesize)
                            && #[trigger] cache_lookup(final(atlas).cache@, (key_base + m) as u64) is None
                            && forall|id: int|
                                0 <= id < m ==> #[trigger] cache_lookup(
                                    final(atlas).cache@,
                                    (key_base + id) as u64,
                                ) is Some)
                })
            },
    {
        let sw = width / tilesize;
        let sh = height / tilesize;
        let tilecount = sw * sh;

        if atlas.cache_len() == 0 {
            if !seed_placeholders(atlas, tilesize, key_base, tilecount) {
                return None;
            }
        }

        let mut id: u32 = 0;
        while id < tilecount
            invariant
                atlas.wf(),
                atlas.width == old(atlas).width,
                atlas.height == old(atlas).height,
                atlas.max_layers == old(atlas).max_layers,
                old(atlas).cache@.is_prefix_of(atlas.cache@),
                fresh_keys_sized(old(atlas).cache@, atlas.cache@, tilesize),
                keys_from_sheet(old(atlas).cache@, atlas.cache@, key_base, tilecount as int),
                old(atlas).cache@.len() == 0 ==> {
                    &&& cache_lookup(atlas.cache@, EMPTY_TILE_KEY) is Some
                    &&& cache_lookup(atlas.cache@, BLACK_TILE_KEY) is Some
                    &&& tilesize <= old(atlas).width
                    &&& tilesize <= old(atlas).height
                },
                tilesize > 0,
                sw == width / tilesize,
                sh == height / tilesize,
                tilecount == sw * sh,
                bytes@.len() == 4 * width * height,
                key_base + tilecount <= u64::MAX,
                0 <= id <= tilecount,
                forall|i: int|
                    0 <= i < id ==> (#[trigger] cache_lookup(atlas.cache@, (key_base + i) as u64)) is Some,
            decreases tilecount - id,
        {
            proof {
                assert(sw >= 1 && sh >= 1) by (nonlinear_arith)
                    requires tilecount == sw * sh, id < tilecount, sw >= 0, sh >= 0;
                lemma_cell_in_grid(
                    id as int,
                    sw as int,
                    sh as int,
                    tilesize as int,
                    width as int,
                    height as int,
                );
            }
            let ghost cache_before = atlas.cache@;
            let pixels = extract_tile(bytes, id, sw, tilesize, width, height);
            let key = key_base + (id as u64);
            match atlas.upload(key, pixels, tilesize, tilesize, 0) {
                Ok(a) => {
                    proof {
                        if cache_lookup(cache_before, key) is None {
                            lemma_cache_lookup_push(cache_before, key, a);
                            lemma_cache_lookup_push_other(cache_before, key, a);
                            lemma_fresh_sized_push(old(atlas).cache@, cache_before, key, a, tilesize);
                            lemma_keys_from_sheet_push(
                                old(atlas).cache@,
                                cache_before,
                                key,
                                a,
                                key_base,
                                tilecount as int,
                            );
                        }
                        assert(cache_before.is_prefix_of(atlas.cache@)) by {
                            assert(cache_before =~= atlas.cache@.take(cache_before.len() as int));
                        }
                        lemma_cache_lookup_stable(cache_before, atlas.cache@);
                        lemma_prefix_trans(old(atlas).cache@, cache_before, atlas.cache@);
                    }
                },
                Err(_) => {
                    return None;
                },
            }
            id = id + 1;
        }
        proof {
            if tilecount > 0 && cache_lookup(old(atlas).cache@, key_base) is None {
                assert((key_base + 0) as u64 == key_base);
                assert(cache_lookup(atlas.cache@, key_base) is Some);
                let a = cache_lookup(atlas.cache@, key_base)->Some_0;
                assert(a.width == tilesize && a.height == tilesize);
                lemma_cache_lookup_entry(atlas.cache@, key_base);
                let i = choose|i: int|
                    0 <= i < atlas.cache@.len() && atlas.cache@[i] == (key_base, a);
                assert(a.within(atlas.width, atlas.height));
            }
        }
        Some(())
    }
}

/// Seeds the two shared placeholder tiles — fully transparent under
/// `EMPTY_TILE_KEY`, solid black under `BLACK_TILE_KEY` — as the first
/// uploads of an empty atlas.  Returns whether both fit.
fn seed_placeholders(atlas: &mut Atlas, tilesize: u32, key_base: u64, tilecount: u32) -> (r: bool)
    requires
        old(atlas).wf(),
        old(atlas).cache@.len() == 0,
        tilesize > 0,
    ensures
        final(atlas).wf(),
        final(atlas).width == old(atlas).width,
        final(atlas).height == old(atlas).height,
        final(atlas).max_layers == old(atlas).max_layers,
        old(atlas).cache@.is_prefix_of(final(atlas).cache@),
        fresh_keys_sized(old(atlas).cache@, final(atlas).cache@, tilesize),
        keys_from_sheet(old(atlas).cache@, final(atlas).cache@, key_base, tilecount as int),
        r ==> {
            &&& cache_lookup(final(atlas).cache@, EMPTY_TILE_KEY) is Some
            &&& cache_lookup(final(atlas).cache@, BLACK_TILE_KEY) is Some
            &&& tilesize <= old(atlas).width
            &&& tilesize <= old(atlas).height
        },
        !r ==> {
            &&& (tilesize > old(atlas).width || tilesize > old(atlas).height
                || final(atlas).layers@.len() == final(atlas).max_layers)
            &&& (cache_lookup(final(atlas).cache@, EMPTY_TILE_KEY) is None
                || cache_lookup(final(atlas).cache@, BLACK_TILE_KEY) is None)
        },
{
    proof {
        assert(cache_lookup(old(atlas).cache@, EMPTY_TILE_KEY) is None);
        assert(cache_lookup(old(atlas).cache@, BLACK_TILE_KEY) is None);
    }
    let empty = solid_tile(tilesize, 0, 0, 0, 0);
    let a0 = match atlas.upload(EMPTY_TILE_KEY, empty, tilesize, tilesize, 0) {
        Ok(a) => a,
        Err(_) => {
            return false;
        },
    };
    proof {
        lemma_cache_lookup_push(old(atlas).cache@, EMPTY_TILE_KEY, a0);
        lemma_cache_lookup_push_other(old(atlas).cache@, EMPTY_TILE_KEY, a0);
        lemma_fresh_sized_push(old(atlas).cache@, old(atlas).cache@, EMPTY_TILE_KEY, a0, tilesize);
        lemma_keys_from_sheet_push(
            old(atlas).cache@,
            old(atlas).cache@,
            EMPTY_TILE_KEY,
            a0,
            key_base,
            tilecount as int,
        );
    }
    let ghost mid = *atlas;
    let black = solid_tile(tilesize, 0, 0, 0, 255);
    let a1 = match atlas.upload(BLACK_TILE_KEY, black, tilesize, tilesize, 0) {
        Ok(a) => a,
        Err(_) => {
            proof {
                lemma_prefix_trans(old(atlas).cache@, mid.cache@, atlas.cache@);
            }
            return false;
        },
    };
    proof {
        lemma_cache_lookup_push(mid.cache@, BLACK_TILE_KEY, a1);
        lemma_cache_lookup_push_other(mid.cache@, BLACK_TILE_KEY, a1);
        lemma_fresh_sized_push(old(atlas).cache@, mid.cache@, BLACK_TILE_KEY, a1, tilesize);
        lemma_keys_from_sheet_push(
            old(atlas).cache@,
            mid.cache@,
            BLACK_TILE_KEY,
            a1,
            key_base,
            tilecount as int,
        );
        lemma_cache_lookup_stable(mid.cache@, atlas.cache@);
        lemma_prefix_trans(old(atlas).cache@, mid.cache@, atlas.cache@);
    }
    true
}

/// An RGBA8 tile of one solid color.
fn solid_tile(ts: u32, cr: u8, cg: u8, cb: u8, ca: u8) -> (r: Vec<u8>)
    ensures
        r@.len() == 4 * ts * ts,
{
    proof {
        assert(ts as int * ts as int <= u64::MAX) by (nonlinear_arith)
            requires ts <= u32::MAX;
    }
    let pixels: u64 = (ts as u64) * (ts as u64);
    let mut out: Vec<u8> = Vec::new();
    let mut p: u64 = 0;
    while p < pixels
        invariant
            0 <= p <= pixels,
            pixels == ts * ts,
            out@.len() == 4 * p,
        decreases pixels - p,
    {
        out.push(cr);
        out.push(cg);
        out.push(cb);
        out.push(ca);
        p = p + 1;
    }
    proof {
        assert(4 * (ts as int * ts as int) == 4 * ts as int * ts as int) by (nonlinear_arith);
    }
    out
}

/// Grid facts for one sheet cell: its column band lies inside the texture
/// width and its row band inside the texture height.
proof fn lemma_cell_in_grid(id: int, sw: int, sh: int, ts: int, tw: int, th: int)
    requires
        ts >= 1,
        sw >= 1,
        sh >= 1,
        sw == tw / ts,
        sh == th / ts,
        0 <= id < sw * sh,
    ensures
        sw * ts <= tw,
        sh * ts <= th,
        0 <= id / sw < sh,
        0 <= id % sw < sw,
        (id % sw) * ts + ts <= tw,
        (id / sw) * ts + ts <= th,
{
    assert(sw * ts <= tw) by (nonlinear_arith)
        requires sw == tw / ts, ts >= 1;
    assert(sh * ts <= th) by (nonlinear_arith)
        requires sh == th / ts, ts >= 1;
    assert(0 <= id / sw < sh) by (nonlinear_arith)
        requires sw >= 1, sh >= 1, 0 <= id, id < sw * sh;
    assert(0 <= id % sw < sw) by (nonlinear_arith)
        requires sw >= 1, 0 <= id;
    assert((id % sw) * ts + ts <= sw * ts) by (nonlinear_arith)
        requires 0 <= id % sw, id % sw < sw, ts >= 0;
    assert((id / sw) * ts + ts <= sh * ts) by (nonlinear_arith)
        requires 0 <= id / sw, id / sw < sh, ts >= 0;
}

/// The byte offset of tile `id`'s pixel `(x, y)`, computed without
/// overflow; the offset leaves room for the pixel's four bytes.
fn src_off_exec(id: u32, x: u32, y: u32, sw: u32, ts: u32, tw: u32, th: u32) -> (r: u64)
    requires
        sw >= 1,
        ts >= 1,
        x < ts,
        y < ts,
        sw * ts <= tw,
        (id / sw) * ts + ts <= th,
        4 * tw * th <= usize::MAX,
    ensures
        r == src_off(id as int, x as int, y as int, sw as int, ts as int, tw as int),
        r + 4 <= 4 * tw * th,
{
    proof {
        assert(0 <= (id as int) % (sw as int) && (id as int) % (sw as int) < sw) by (nonlinear_arith)
            requires sw >= 1, id >= 0;
        assert(((id as int) % (sw as int)) * ts + ts <= sw * ts) by (nonlinear_arith)
            requires ts >= 0, 0 <= (id as int) % (sw as int), (id as int) % (sw as int) < sw;
        assert(((id as int / sw as int) * ts + y) * tw + tw <= th * tw) by (nonlinear_arith)
            requires
                (id as int / sw as int) * ts + y + 1 <= th,
                tw >= 0;
        assert(4 * (th * tw) == 4 * tw * th) by (nonlinear_arith);
    }
    let px: u64 = ((id % sw) as u64) * (ts as u64) + (x as u64);
    let py: u64 = ((id / sw) as u64) * (ts as u64) + (y as u64);
    4 * (py * (tw as u64) + px)
}

/// Whether every pixel of tile `id` has a zero alpha byte.
fn tile_is_transparent(bytes: &Vec<u8>, id: u32, sw: u32, ts: u32, tw: u32, th: u32) -> (r: bool)
    requires
        sw >= 1,
        ts >= 1,
        sw * ts <= tw,
        (id / sw) * ts + ts <= th,
        bytes@.len() == 4 * tw * th,
    ensures
        r == tile_transparent(bytes@, id as int, sw as int, ts as int, tw as int),
{
    proof {
        assert(bytes@.len() <= usize::MAX) by {
            assert(bytes.len() == bytes@.len());
        }
    }
    let mut y: u32 = 0;
    while y < ts
        invariant
            0 <= y <= ts,
            sw >= 1,
            ts >= 1,
            sw * ts <= tw,
            (id / sw) * ts + ts <= th,
            bytes@.len() == 4 * tw * th,
            bytes@.len() <= usize::MAX,
            forall|x2: int, y2: int|
                0 <= x2 < ts && 0 <= y2 < y
                    ==> bytes@[#[trigger] src_off(id as int, x2, y2, sw as int, ts as int, tw as int)
                        + 3] == 0,
        decreases ts - y,
    {
        let mut x: u32 = 0;
        while x < ts
            invariant
                0 <= x <= ts,
                0 <= y < ts,
                sw >= 1,
                ts >= 1,
                sw * ts <= tw,
                (id / sw) * ts + ts <= th,
                bytes@.len() == 4 * tw * th,
                bytes@.len() <= usize::MAX,
                forall|x2: int, y2: int|
                    0 <= x2 < ts && 0 <= y2 < y
                        ==> bytes@[#[trigger] src_off(id as int, x2, y2, sw as int, ts as int, tw as int)
                            + 3] == 0,
                forall|x2: int|
                    0 <= x2 < x
                        ==> bytes@[#[trigger] src_off(id as int, x2, y as int, sw as int, ts as int, tw as int)
                            + 3] == 0,
            decreases ts - x,
        {
            let off = src_off_exec(id, x, y, sw, ts, tw, th);
            if bytes[(off as usize) + 3] != 0 {
                return false;
            }
            x = x + 1;
        }
        y = y + 1;
    }
    true
}

/// Whether every pixel of tile `id` is solid opaque black.
fn tile_is_black(bytes: &Vec<u8>, id: u32, sw: u32, ts: u32, tw: u32, th: u32) -> (r: bool)
    requires
        sw >= 1,
        ts >= 1,
        sw * ts <= tw,
        (id / sw) * ts + ts <= th,
        bytes@.len() == 4 * tw * th,
    ensures
        r == tile_black(bytes@, id as int, sw as int, ts as int, tw as int),
{
    proof {
        assert(bytes@.len() <= usize::MAX) by {
            assert(bytes.len() == bytes@.len());
        }
    }
    let mut y: u32 = 0;
    while y < ts
        invariant
            0 <= y <= ts,
            sw >= 1,
            ts >= 1,
            sw * ts <= tw,
            (id / sw) * ts + ts <= th,
            bytes@.len() == 4 * tw * th,
            bytes@.len() <= usize::MAX,
            forall|x2: int, y2: int|
                0 <= x2 < ts && 0 <= y2 < y ==> {
                    let o = #[trigger] src_off(id as int, x2, y2, sw as int, ts as int, tw as int);
                    bytes@[o] == 0 && bytes@[o + 1] == 0 && bytes@[o + 2] == 0 && bytes@[o + 3] == 255
                },
        decreases ts - y,
    {
        let mut x: u32 = 0;
        while x < ts
            invariant
                0 <= x <= ts,
                0 <= y < ts,
                sw >= 1,
                ts >= 1,
                sw * ts <= tw,
                (id / sw) * ts + ts <= th,
                bytes@.len() == 4 * tw * th,
                bytes@.len() <= usize::MAX,
                forall|x2: int, y2: int|
                    0 <= x2 < ts && 0 <= y2 < y ==> {
                        let o = #[trigger] src_off(id as int, x2, y2, sw as int, ts as int, tw as int);
                        bytes@[o] == 0 && bytes@[o + 1] == 0 && bytes@[o + 2] == 0 && bytes@[o + 3]
                            == 255
                    },
                forall|x2: int|
                    0 <= x2 < x ==> {
                        let o = #[trigger] src_off(id as int, x2, y as int, sw as int, ts as int, tw as int);
                        bytes@[o] == 0 && bytes@[o + 1] == 0 && bytes@[o + 2] == 0 && bytes@[o + 3]
                            == 255
                    },
            decreases ts - x,
        {
            let off = src_off_exec(id, x, y, sw, ts, tw, th);
            let o = off as usize;
            if bytes[o] != 0 || bytes[o + 1] != 0 || bytes[o + 2] != 0 || bytes[o + 3] != 255 {
                return false;
            }
            x = x + 1;
        }
        y = y + 1;
    }
    true
}

/// Copies tile `id`'s pixels out of the source texture, row by row, into a
/// standalone RGBA8 bitmap ready for upload.
fn extract_tile(bytes: &Vec<u8>, id: u32, sw: u32, ts: u32, tw: u32, th: u32) -> (r: Vec<u8>)
    requires
        sw >= 1,
        ts >= 1,
        sw * ts <= tw,
        (id / sw) * ts + ts <= th,
        bytes@.len() == 4 * tw * th,
    ensures
        r@.len() == 4 * ts * ts,
{
    let mut out: Vec<u8> = Vec::new();
    proof {
        assert(bytes@.len() <= usize::MAX) by {
            assert(bytes.len() == bytes@.len());
        }
        assert(4 * 0 * ts as int == 0) by (nonlinear_arith);
    }
    let mut y: u32 = 0;
    while y < ts
        invariant
            0 <= y <= ts,
            sw >= 1,
            ts >= 1,
            sw * ts <= tw,
            (id / sw) * ts + ts <= th,
            bytes@.len() == 4 * tw * th,
            bytes@.len() <= usize::MAX,
            out@.len() == 4 * y * ts,
        decreases ts - y,
    {
        let mut x: u32 = 0;
        while x < ts
            invariant
                0 <= x <= ts,
                0 <= y < ts,
                sw >= 1,
                ts >= 1,
                sw * ts <= tw,
                (id / sw) * ts + ts <= th,
                bytes@.len() == 4 * tw * th,
                bytes@.len() <= usize::MAX,
                out@.len() == 4 * y * ts + 4 * x,
            decreases ts - x,
        {
            let off = src_off_exec(id, x, y, sw, ts, tw, th);
            let o = off as usize;
            out.push(bytes[o]);
            out.push(bytes[o + 1]);
            out.push(bytes[o + 2]);
            out.push(bytes[o + 3]);
            x = x + 1;
        }
        proof {
            assert(4 * y * ts + 4 * ts == 4 * (y + 1) * ts) by (nonlinear_arith);
        }
        y = y + 1;
    }
    proof {
        assert(out@.len() == 4 * ts * ts);
    }
    out
}

/// Adding one tile-sized entry keeps every key missing at the call's start
/// either still missing or placed at tile extent.
proof fn lemma_fresh_sized_push(
    base: Seq<(u64, Allocation)>,
    pre: Seq<(u64, Allocation)>,
    key: u64,
    a: Allocation,
    ts: u32,
)
    requires
        fresh_keys_sized(base, pre, ts),
        a.width == ts,
        a.height == ts,
    ensures
        fresh_keys_sized(base, pre.push((key, a)), ts),
{
    lemma_cache_lookup_push_other(pre, key, a);
    assert(pre.is_prefix_of(pre.push((key, a)))) by {
        assert(pre =~= pre.push((key, a)).take(pre.len() as int));
    }
    lemma_cache_lookup_stable(pre, pre.push((key, a)));
    assert forall|k: u64| cache_lookup(base, k) is None implies match #[trigger] cache_lookup(
        pre.push((key, a)),
        k,
    ) {
        Some(b) => b.width == ts && b.height == ts,
        None => true,
    } by {
        if k == key && cache_lookup(pre, key) is None {
            lemma_cache_lookup_push(pre, key, a);
        }
    }
}

/// Adding one entry under one of the call's own keys keeps the cache's
/// growth within the sheet's key band.
proof fn lemma_keys_from_sheet_push(
    base: Seq<(u64, Allocation)>,
    pre: Seq<(u64, Allocation)>,
    key: u64,
    a: Allocation,
    key_base: u64,
    count: int,
)
    requires
        keys_from_sheet(base, pre, key_base, count),
        key == EMPTY_TILE_KEY || key == BLACK_TILE_KEY || (key_base <= key && key < key_base + count),
    ensures
        keys_from_sheet(base, pre.push((key, a)), key_base, count),
{
    lemma_cache_lookup_push_other(pre, key, a);
}

/// Tiles recorded before an upload keep matching after it: the cache only
/// grew, so every placement they point at is still found.
proof fn lemma_cache_grow_keeps_matches(
    bytes: Seq<u8>,
    upto: int,
    sw: int,
    ts: int,
    tw: int,
    key_base: u64,
    c1: Seq<(u64, Allocation)>,
    c2: Seq<(u64, Allocation)>,
    atlas_w: int,
    tiles: Seq<Tile>,
)
    requires
        c1.is_prefix_of(c2),
        upto + 1 <= tiles.len(),
        forall|i: int|
            0 <= i < upto ==> tile_matches(bytes, i, sw, ts, tw, key_base, c1, atlas_w, #[trigger] tiles[i]),
    ensures
        forall|i: int|
            0 <= i < upto ==> tile_matches(bytes, i, sw, ts, tw, key_base, c2, atlas_w, #[trigger] tiles[i]),
{
    lemma_cache_lookup_stable(c1, c2);
    assert forall|i: int|
        0 <= i < upto implies tile_matches(bytes, i, sw, ts, tw, key_base, c2, atlas_w, #[trigger] tiles[i]) by {
        assert(tile_matches(bytes, i, sw, ts, tw, key_base, c1, atlas_w, tiles[i]));
    }
}

} // verus!
