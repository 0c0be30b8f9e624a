//! Glyph staging for shaped text: the rasterized bitmap of every glyph a
//! text run uses is packed into one of two atlases — monochrome masks into
//! the text atlas, full-color glyphs into the emoji atlas — keyed by the
//! glyph's cache key, so one glyph is uploaded at most once however many
//! runs use it.  Vertex building for the placed glyphs is floating-point
//! work and stays outside the crate.

use crate::atlas::{cache_lookup, lemma_cache_lookup_push, lemma_cache_lookup_push_other,
    lemma_cache_lookup_stable, lemma_prefix_trans, Atlas, AtlasError};
use crate::instance::copy_bytes;
use vstd::prelude::*;

verus! {

/// One rasterized glyph handed over by the shaping collaborator: its cache
/// key, bitmap extent, whether it is a full-color bitmap, and its RGBA8
/// pixels.
pub struct GlyphBitmap {
    pub key: u64,
    pub width: u32,
    pub height: u32,
    pub is_color: bool,
    pub pixels: Vec<u8>,
}

/// The glyph's bitmap is cached in one of the two atlases.
pub open spec fn glyph_placed(text_atlas: Atlas, emoji_atlas: Atlas, key: u64) -> bool {
    cache_lookup(text_atlas.cache@, key) is Some || cache_lookup(emoji_atlas.cache@, key) is Some
}

/// Every key the call added to this atlas belongs to a sized glyph of the
/// given color class among the first `upto` entries of the run: the call
/// grows each atlas only with its own class of glyphs.
pub open spec fn glyph_keys_from(
    pre: Atlas,
    post: Atlas,
    glyphs: Seq<GlyphBitmap>,
    upto: int,
    want_color: bool,
) -> bool {
    forall|k: u64|
        #[trigger] cache_lookup(post.cache@, k) is Some ==> cache_lookup(pre.cache@, k) is Some
            || exists|j: int|
                0 <= j < upto && (#[trigger] glyphs[j]).key == k && glyphs[j].is_color == want_color
                    && glyphs[j].width > 0 && glyphs[j].height > 0
}

/// Glyph `i` of the run went where it belongs: it is cached in the atlas of
/// its color class, unless its key was already placed before the call, or
/// the run also carries the same key under the other color class (then the
/// first of the two claimed the key).
pub open spec fn glyph_routed(
    text_pre: Atlas,
    emoji_pre: Atlas,
    text_post: Atlas,
    emoji_post: Atlas,
    glyphs: Seq<GlyphBitmap>,
    i: int,
) -> bool {
    let g = glyphs[i];
    ||| (if g.is_color {
        cache_lookup(emoji_post.cache@, g.key) is Some
    } else {
        cache_lookup(text_post.cache@, g.key) is Some
    })
    ||| glyph_placed(text_pre, emoji_pre, g.key)
    ||| (exists|j: int|
        0 <= j < glyphs.len() && (#[trigger] glyphs[j]).key == g.key
            && glyphs[j].is_color != g.is_color && glyphs[j].width > 0 && glyphs[j].height > 0)
}

/// Packs every sized glyph of the run into the atlases: a glyph already
/// cached in either atlas is skipped; a fresh color glyph goes to the emoji
/// atlas, a fresh mask glyph to the text atlas; zero-sized glyphs carry no
/// pixels and are skipped.  On success every sized glyph is routed to its
/// class's atlas; when an atlas runs out of room the failure is
/// `AtlasFull`, and the glyphs staged before the failure remain cached.
pub fn stage_glyphs(
    text_atlas: &mut Atlas,
    emoji_atlas: &mut Atlas,
    glyphs: &Vec<GlyphBitmap>,
) -> (r: Result<(), AtlasError>)
    requires
        old(text_atlas).wf(),
        old(emoji_atlas).wf(),
        forall|i: int|
            0 <= i < glyphs@.len()
                ==> (#[trigger] glyphs@[i]).pixels@.len() == 4 * glyphs@[i].width * glyphs@[i].height,
    ensures
        final(text_atlas).wf(),
        final(emoji_atlas).wf(),
        final(text_atlas).width == old(text_atlas).width,
        final(text_atlas).height == old(text_atlas).height,
        final(text_atlas).max_layers == old(text_atlas).max_layers,
        final(emoji_atlas).width == old(emoji_atlas).width,
        final(emoji_atlas).height == old(emoji_atlas).height,
        final(emoji_atlas).max_layers == old(emoji_atlas).max_layers,
        old(text_atlas).cache@.is_prefix_of(final(text_atlas).cache@),
        old(emoji_atlas).cache@.is_prefix_of(final(emoji_atlas).cache@),
        glyph_keys_from(*old(text_atlas), *final(text_atlas), glyphs@, glyphs@.len() as int, false),
        glyph_keys_from(*old(emoji_atlas), *final(emoji_atlas), glyphs@, glyphs@.len() as int, true),
        r is Ok ==> forall|i: int|
            0 <= i < glyphs@.len() && (#[trigger] glyphs@[i]).width > 0 && glyphs@[i].height > 0
                ==> glyph_routed(
                    *old(text_atlas),
                    *old(emoji_atlas),
                    *final(text_atlas),
                    *final(emoji_atlas),
                    glyphs@,
                    i,
                ),
        r is Ok ==> forall|i: int|
            0 <= i < glyphs@.len() && (#[trigger] glyphs@[i]).width > 0 && glyphs@[i].height > 0
                ==> glyph_placed(*final(text_atlas), *final(emoji_atlas), glyphs@[i].key),
        r matches Err(e) ==> e == AtlasError::AtlasFull,
        r is Err ==> exists|i: int|
            0 <= i < glyphs@.len() && (#[trigger] glyphs@[i]).width > 0 && glyphs@[i].height > 0
                && (if glyphs@[i].is_color {
                    glyphs@[i].width > old(emoji_atlas).width || glyphs@[i].height > old(emoji_atlas).height
                        || final(emoji_atlas).layers@.len() == final(emoji_atlas).max_layers
                } else {
                    glyphs@[i].width > old(text_atlas).width || glyphs@[i].height > old(text_atlas).height
                        || final(text_atlas).layers@.len() == final(text_atlas).max_layers
                })
                && (forall|j: int|
                    0 <= j < i && (#[trigger] glyphs@[j]).width > 0 && glyphs@[j].height > 0
                        ==> glyph_routed(
                            *old(text_atlas),
                            *old(emoji_atlas),
                            *final(text_atlas),
                            *final(emoji_atlas),
                            glyphs@,
                            j,
                        )),
    {
    let n = glyphs.len();
    let mut i: usize = 0;
    while i < n
        invariant
            0 <= i <= n,
            n == glyphs@.len(),
            text_atlas.wf(),
            emoji_atlas.wf(),
            text_atlas.width == old(text_atlas).width,
            text_atlas.height == old(text_atlas).height,
            text_atlas.max_layers == old(text_atlas).max_layers,
            emoji_atlas.width == old(emoji_atlas).width,
            emoji_atlas.height == old(emoji_atlas).height,
            emoji_atlas.max_layers == old(emoji_atlas).max_layers,
            old(text_atlas).cache@.is_prefix_of(text_atlas.cache@),
            old(emoji_atlas).cache@.is_prefix_of(emoji_atlas.cache@),
            glyph_keys_from(*old(text_atlas), *text_atlas, glyphs@, i as int, false),
            glyph_keys_from(*old(emoji_atlas), *emoji_atlas, glyphs@, i as int, true),
            forall|j: int|
                0 <= j < glyphs@.len()
                    ==> (#[trigger] glyphs@[j]).pixels@.len() == 4 * glyphs@[j].width
                        * glyphs@[j].height,
            forall|j: int|
                0 <= j < i && (#[trigger] glyphs@[j]).width > 0 && glyphs@[j].height > 0
                    ==> glyph_routed(
                        *old(text_atlas),
                        *old(emoji_atlas),
                        *text_atlas,
                        *emoji_atlas,
                        glyphs@,
                        j,
                    ),
            forall|j: int|
                0 <= j < i && (#[trigger] glyphs@[j]).width > 0 && glyphs@[j].height > 0
                    ==> glyph_placed(*text_atlas, *emoji_atlas, glyphs@[j].key),
        decreases n - i,
    {
        let g = &glyphs[i];
        if g.width == 0 || g.height == 0 {
            proof {
                lemma_keys_from_widen(*old(text_atlas), *text_atlas, glyphs@, i as int, false);
                lemma_keys_from_widen(*old(emoji_atlas), *emoji_atlas, glyphs@, i as int, true);
            }
            i = i + 1;
            continue;
        }
        let in_text = text_atlas.get(g.key).is_some();
        let in_emoji = emoji_atlas.get(g.key).is_some();
        if in_text || in_emoji {
            proof {
                lemma_keys_from_widen(*old(text_atlas), *text_atlas, glyphs@, i as int, false);
                lemma_keys_from_widen(*old(emoji_atlas), *emoji_atlas, glyphs@, i as int, true);
                assert(glyph_routed(
                    *old(text_atlas),
                    *old(emoji_atlas),
                    *text_atlas,
                    *emoji_atlas,
                    glyphs@,
                    i as int,
                )) by {
                    if glyphs@[i as int].is_color {
                        if in_emoji {
                        } else {
                            assert(cache_lookup(text_atlas.cache@, glyphs@[i as int].key) is Some);
                        }
                    } else {
                        if in_text {
                        } else {
                            assert(cache_lookup(emoji_atlas.cache@, glyphs@[i as int].key) is Some);
                        }
                    }
                }
            }
            i = i + 1;
            continue;
        }
        let pixels = copy_bytes(&g.pixels);
        let ghost tpre = *text_atlas;
        let ghost epre = *emoji_atlas;
        let outcome = if g.is_color {
            emoji_atlas.upload(g.key, pixels, g.width, g.height, 0)
        } else {
            text_atlas.upload(g.key, pixels, g.width, g.height, 0)
        };
        match outcome {
            Ok(a) => {
                proof {
                    if glyphs@[i as int].is_color {
                        lemma_cache_lookup_push(epre.cache@, glyphs@[i as int].key, a);
                        lemma_cache_lookup_push_other(epre.cache@, glyphs@[i as int].key, a);
                    } else {
                        lemma_cache_lookup_push(tpre.cache@, glyphs@[i as int].key, a);
                        lemma_cache_lookup_push_other(tpre.cache@, glyphs@[i as int].key, a);
                    }
                    lemma_prefix_trans(old(text_atlas).cache@, tpre.cache@, text_atlas.cache@);
                    lemma_prefix_trans(old(emoji_atlas).cache@, epre.cache@, emoji_atlas.cache@);
                    lemma_cache_lookup_stable(tpre.cache@, text_atlas.cache@);
                    lemma_cache_lookup_stable(epre.cache@, emoji_atlas.cache@);
                    lemma_routed_grows(
                        *old(text_atlas),
                        *old(emoji_atlas),
                        tpre,
                        epre,
                        *text_atlas,
                        *emoji_atlas,
                        glyphs@,
                        i as int,
                    );
                    lemma_keys_from_widen(*old(text_atlas), tpre, glyphs@, i as int, false);
                    lemma_keys_from_widen(*old(emoji_atlas), epre, glyphs@, i as int, true);
                    assert forall|j: int|
                        0 <= j < i + 1 && (#[trigger] glyphs@[j]).width > 0 && glyphs@[j].height > 0
                        implies glyph_placed(*text_atlas, *emoji_atlas, glyphs@[j].key) by {
                        if j < i {
                            assert(glyph_placed(tpre, epre, glyphs@[j].key));
                        }
                    }
                }
            },
            Err(_) => {
                proof {
                    lemma_prefix_trans(old(text_atlas).cache@, tpre.cache@, text_atlas.cache@);
                    lemma_prefix_trans(old(emoji_atlas).cache@, epre.cache@, emoji_atlas.cache@);
                    assert(glyphs@[i as int].width > 0 && glyphs@[i as int].height > 0);
                }
                return Err(AtlasError::AtlasFull);
            },
        }
        i = i + 1;
    }
    Ok(())
}

/// A class invariant over a longer processed prefix is no stronger: the
/// per-key witness stays valid when more glyphs are admitted.
proof fn lemma_keys_from_widen(pre: Atlas, post: Atlas, glyphs: Seq<GlyphBitmap>, upto: int, want_color: bool)
    requires
        glyph_keys_from(pre, post, glyphs, upto, want_color),
        upto + 1 <= glyphs.len(),
    ensures
        glyph_keys_from(pre, post, glyphs, upto + 1, want_color),
{
    assert forall|k: u64| #[trigger] cache_lookup(post.cache@, k) is Some implies cache_lookup(
        pre.cache@,
        k,
    ) is Some || exists|j: int|
        0 <= j < upto + 1 && (#[trigger] glyphs[j]).key == k && glyphs[j].is_color == want_color
            && glyphs[j].width > 0 && glyphs[j].height > 0 by {
        if cache_lookup(pre.cache@, k) is None {
            let j = choose|j: int|
                0 <= j < upto && (#[trigger] glyphs[j]).key == k && glyphs[j].is_color == want_color
                    && glyphs[j].width > 0 && glyphs[j].height > 0;
            assert(0 <= j < upto + 1 && glyphs[j].key == k && glyphs[j].is_color == want_color
                && glyphs[j].width > 0 && glyphs[j].height > 0);
        }
    }
}

/// Routing survives atlas growth: a glyph found in its class's atlas stays
/// found as both atlases only gain entries.
proof fn lemma_routed_grows(
    t0: Atlas,
    e0: Atlas,
    t1: Atlas,
    e1: Atlas,
    t2: Atlas,
    e2: Atlas,
    glyphs: Seq<GlyphBitmap>,
    upto: int,
)
    requires
        forall|j: int|
            0 <= j < upto && (#[trigger] glyphs[j]).width > 0 && glyphs[j].height > 0
                ==> glyph_routed(t0, e0, t1, e1, glyphs, j),
        t1.cache@.is_prefix_of(t2.cache@),
        e1.cache@.is_prefix_of(e2.cache@),
    ensures
        forall|j: int|
            0 <= j < upto && (#[trigger] glyphs[j]).width > 0 && glyphs[j].height > 0
                ==> glyph_routed(t0, e0, t2, e2, glyphs, j),
{
    lemma_cache_lookup_stable(t1.cache@, t2.cache@);
    lemma_cache_lookup_stable(e1.cache@, e2.cache@);
    assert forall|j: int|
        0 <= j < upto && (#[trigger] glyphs[j]).width > 0 && glyphs[j].height > 0 implies glyph_routed(
        t0,
        e0,
        t2,
        e2,
        glyphs,
        j,
    ) by {
        assert(glyph_routed(t0, e0, t1, e1, glyphs, j));
    }
}

} // verus!
