use graphics::arena::Handle;
use graphics::atlas::{Allocation, Atlas};
use graphics::order::{check_sorted, sort_indices, DrawOrder, OrderedIndex};
use graphics::quad::quad_indices;
use graphics::sprite::{Sprite, SpriteVertexData, WHITE_RGBA};
use graphics::text::{stage_glyphs, GlyphBitmap};
use graphics::tilesheet::{Tile, TileSheet};

#[test]
fn quad_indices_follow_the_fixed_pattern() {
    assert_eq!(quad_indices(0), Vec::<u32>::new());
    assert_eq!(
        quad_indices(3),
        vec![0, 1, 2, 0, 2, 3, 4, 5, 6, 4, 6, 7, 8, 9, 10, 8, 10, 11]
    );
    let big = quad_indices(90);
    assert_eq!(big.len(), 540);
    assert_eq!(&big[534..], &[356, 357, 358, 356, 358, 359]);
}

#[test]
fn draw_order_compares_lexicographically() {
    let opaque_near = DrawOrder::new(false, [5, 5, 1], 0);
    let opaque_far = DrawOrder::new(false, [5, 5, 9], 0);
    let translucent = DrawOrder::new(true, [5, 5, 0], 0);
    let later = DrawOrder::new(false, [5, 5, 1], 3);
    assert!(opaque_near.lt(&opaque_far));
    assert!(opaque_near.lt(&translucent));
    assert!(opaque_far.lt(&translucent));
    assert!(opaque_near.lt(&later));
    assert!(!later.lt(&later));
}

#[test]
fn draw_order_trichotomy_on_samples() {
    let samples = [
        DrawOrder::new(false, [0, 0, 0], 0),
        DrawOrder::new(false, [0, 0, 1], 0),
        DrawOrder::new(false, [0, 0, 0], 1),
        DrawOrder::new(true, [0, 0, 0], 0),
        DrawOrder::new(true, [0, 0, 7], 2),
    ];
    for a in samples.iter() {
        for b in samples.iter() {
            let lt = a.lt(b);
            let gt = b.lt(a);
            let eq = a == b;
            assert_eq!(
                1,
                (lt as u32) + (gt as u32) + (eq as u32),
                "exactly one of <, ==, > must hold"
            );
        }
    }
    for a in samples.iter() {
        for b in samples.iter() {
            for c in samples.iter() {
                if a.lt(b) && b.lt(c) {
                    assert!(a.lt(c), "transitivity");
                }
            }
        }
    }
}

#[test]
fn check_sorted_accepts_draw_order_and_ties() {
    let h = Handle { slot: 0, generation: 0 };
    let sorted = vec![
        OrderedIndex::new(DrawOrder::new(false, [0, 0, 1], 0), h),
        OrderedIndex::new(DrawOrder::new(false, [0, 0, 1], 0), h),
        OrderedIndex::new(DrawOrder::new(false, [0, 0, 2], 0), h),
        OrderedIndex::new(DrawOrder::new(true, [0, 0, 0], 0), h),
    ];
    assert!(check_sorted(&sorted));
    let unsorted = vec![
        OrderedIndex::new(DrawOrder::new(true, [0, 0, 0], 0), h),
        OrderedIndex::new(DrawOrder::new(false, [0, 0, 2], 0), h),
    ];
    assert!(!check_sorted(&unsorted));
    assert!(check_sorted(&Vec::new()));
}

#[test]
fn sort_indices_is_stable_and_orders_draws() {
    let handle = |slot: usize| Handle { slot, generation: 0 };
    let mut frame = vec![
        OrderedIndex::new(DrawOrder::new(true, [0, 0, 0], 0), handle(0)),
        OrderedIndex::new(DrawOrder::new(false, [0, 0, 5], 1), handle(1)),
        OrderedIndex::new(DrawOrder::new(false, [0, 0, 5], 1), handle(2)),
        OrderedIndex::new(DrawOrder::new(false, [0, 0, 2], 9), handle(3)),
    ];
    sort_indices(&mut frame);
    assert!(check_sorted(&frame));
    // Opaque draws come first, by depth bucket; the translucent draw last.
    assert_eq!(frame[0].handle, handle(3));
    // The two entries with equal keys keep their submission order.
    assert_eq!(frame[1].handle, handle(1));
    assert_eq!(frame[2].handle, handle(2));
    assert_eq!(frame[3].handle, handle(0));
}

#[test]
fn sprite_new_takes_the_placement_layer() {
    let alloc = Allocation { layer: 3, x: 10, y: 20, width: 64, height: 64 };
    let s = Sprite::new(alloc);
    assert_eq!(s.layer, 3);
    assert_eq!(s.texture, Some(alloc));
    assert_eq!(s.color, WHITE_RGBA);
    assert!(s.changed);
    assert!(s.quad.is_empty());
}

#[test]
fn sprite_update_builds_the_expected_quad() {
    let alloc = Allocation { layer: 0, x: 0, y: 0, width: 64, height: 64 };
    let mut s = Sprite::new(alloc);
    s.pos = [64, 64, 1];
    s.hw = [10, 20];
    s.uv = [0, 0, 80, 80];
    s.update();
    assert!(!s.changed);
    let expected = vec![
        SpriteVertexData { px: 64, py: 64, pz: 1, u: 0, v: 64, layer: 0, color: WHITE_RGBA },
        SpriteVertexData { px: 74, py: 64, pz: 1, u: 64, v: 64, layer: 0, color: WHITE_RGBA },
        SpriteVertexData { px: 74, py: 84, pz: 1, u: 64, v: 0, layer: 0, color: WHITE_RGBA },
        SpriteVertexData { px: 64, py: 84, pz: 1, u: 0, v: 0, layer: 0, color: WHITE_RGBA },
    ];
    assert_eq!(s.quad, expected);
}

#[test]
fn sprite_update_is_a_noop_when_clean() {
    let alloc = Allocation { layer: 0, x: 0, y: 0, width: 8, height: 8 };
    let mut s = Sprite::new(alloc);
    s.update();
    let quad_after_first = s.quad.clone();
    // A second update without an intervening change rebuilds nothing.
    s.update();
    assert_eq!(s.quad, quad_after_first);
    assert!(!s.changed);
    // Changing state and re-flagging rebuilds with the new values.
    s.pos = [1, 0, 0];
    s.changed = true;
    s.update();
    assert_eq!(s.quad[0].px, 1);
}

#[test]
fn sprite_uv_window_clamps_to_the_placement() {
    let alloc = Allocation { layer: 0, x: 100, y: 50, width: 16, height: 8 };
    let mut s = Sprite::new(alloc);
    s.uv = [4, 2, 999, 999];
    s.update();
    // The window is clamped to 16 by 8 and offset by the placement position.
    assert_eq!(s.quad[0].u, 104);
    assert_eq!(s.quad[0].v, 52 + 8);
    assert_eq!(s.quad[2].u, 104 + 16);
    assert_eq!(s.quad[2].v, 52);
}

#[test]
fn glyphs_land_in_their_atlases_once() {
    let mut text_atlas = Atlas::new(256, 256, 2);
    let mut emoji_atlas = Atlas::new(256, 256, 2);
    let glyphs = vec![
        GlyphBitmap { key: 11, width: 8, height: 8, is_color: false, pixels: vec![0; 256] },
        GlyphBitmap { key: 12, width: 4, height: 4, is_color: true, pixels: vec![0; 64] },
        GlyphBitmap { key: 13, width: 0, height: 0, is_color: false, pixels: vec![] },
        // A repeat of a staged glyph is skipped, not re-packed.
        GlyphBitmap { key: 11, width: 8, height: 8, is_color: false, pixels: vec![0; 256] },
    ];
    assert!(stage_glyphs(&mut text_atlas, &mut emoji_atlas, &glyphs).is_ok());
    assert!(text_atlas.get(11).is_some());
    assert!(emoji_atlas.get(11).is_none());
    assert!(emoji_atlas.get(12).is_some());
    assert!(text_atlas.get(12).is_none());
    assert!(text_atlas.get(13).is_none());
    assert!(emoji_atlas.get(13).is_none());
    assert_eq!(text_atlas.cache_len(), 1);
    assert_eq!(emoji_atlas.cache_len(), 1);
}

#[test]
fn tilesheet_folds_placeholder_tiles() {
    // A 2 by 2 sheet of single-pixel tiles, all transparent.
    let bytes = vec![0u8; 16];
    let mut atlas = Atlas::new(16, 16, 2);
    let sheet = TileSheet::new(&bytes, 2, 2, 100, &mut atlas, 1).unwrap();
    assert_eq!(sheet.tiles.len(), 4);
    assert_eq!(sheet.tiles[0], Tile { x: 0, y: 0, layer: 0, id: 0 });
    assert_eq!(sheet.tiles[1], Tile { x: 1, y: 0, layer: 0, id: 0 });
    assert_eq!(sheet.tiles[2], Tile { x: 0, y: 1, layer: 0, id: 0 });
    assert_eq!(sheet.tiles[3], Tile { x: 1, y: 1, layer: 0, id: 0 });
    // Only the two placeholder tiles were uploaded.
    assert_eq!(atlas.cache_len(), 2);
}

#[test]
fn tilesheet_uploads_a_colored_tile() {
    // One 1 by 1 tile with a distinctive color.
    let bytes = vec![10u8, 20, 30, 40];
    let mut atlas = Atlas::new(16, 16, 2);
    let sheet = TileSheet::new(&bytes, 1, 1, 100, &mut atlas, 1).unwrap();
    assert_eq!(sheet.tiles.len(), 1);
    // Placeholders land at (0,0) and (1,0); the tile itself at (2,0).
    let a = atlas.get(100).unwrap();
    assert_eq!((a.x, a.y, a.layer), (2, 0, 0));
    assert_eq!(sheet.tiles[0], Tile { x: 0, y: 0, layer: 0, id: 2 });
    assert_eq!(atlas.cache_len(), 3);
}

#[test]
fn tilesheet_wide_sheet_uses_row_major_origins() {
    // A 2 by 1 grid of single-pixel tiles: both cells sit on row zero.
    let bytes = vec![0u8; 8];
    let mut atlas = Atlas::new(16, 16, 2);
    let sheet = TileSheet::new(&bytes, 2, 1, 100, &mut atlas, 1).unwrap();
    assert_eq!(sheet.tiles.len(), 2);
    assert_eq!(sheet.tiles[0], Tile { x: 0, y: 0, layer: 0, id: 0 });
    assert_eq!(sheet.tiles[1], Tile { x: 1, y: 0, layer: 0, id: 0 });
}

#[test]
fn tilesheet_tall_sheet_uses_row_major_origins() {
    // A 1 by 2 grid: the second cell sits one tile down, not one across.
    let bytes = vec![0u8; 8];
    let mut atlas = Atlas::new(16, 16, 2);
    let sheet = TileSheet::new(&bytes, 1, 2, 100, &mut atlas, 1).unwrap();
    assert_eq!(sheet.tiles.len(), 2);
    assert_eq!(sheet.tiles[0], Tile { x: 0, y: 0, layer: 0, id: 0 });
    assert_eq!(sheet.tiles[1], Tile { x: 0, y: 1, layer: 0, id: 0 });
}

#[test]
fn tilesheet_classifies_each_cell_by_its_own_pixels() {
    // 2 by 2 grid: cell 0 solid black, cell 3 colored, the others transparent.
    let mut bytes = vec![0u8; 16];
    bytes[3] = 255; // cell 0 at pixel (0,0): (0,0,0,255)
    bytes[12] = 9; // cell 3 at pixel (1,1): (9,0,0,200)
    bytes[15] = 200;
    let mut atlas = Atlas::new(16, 16, 2);
    let sheet = TileSheet::new(&bytes, 2, 2, 100, &mut atlas, 1).unwrap();
    assert_eq!(sheet.tiles[0], Tile { x: 0, y: 0, layer: 0, id: 1 });
    assert_eq!(sheet.tiles[1], Tile { x: 1, y: 0, layer: 0, id: 0 });
    assert_eq!(sheet.tiles[2], Tile { x: 0, y: 1, layer: 0, id: 0 });
    // The colored cell is uploaded under its own key with its own pixels.
    let a = atlas.get(103).unwrap();
    assert_eq!((a.width, a.height), (1, 1));
    assert_eq!(sheet.tiles[3].layer, a.layer);
    assert_eq!(sheet.tiles[3].id, a.x / 1 + (a.y / 1) * (16 / 1));
    let staged = atlas.pending.last().unwrap();
    assert_eq!(staged.1, vec![9, 0, 0, 200]);
}

#[test]
fn tilesheet_upload_stages_every_tile() {
    let bytes = vec![255u8; 16];
    let mut atlas = Atlas::new(16, 16, 2);
    assert!(TileSheet::upload(&bytes, 2, 2, 200, &mut atlas, 1).is_some());
    for id in 0..4u64 {
        assert!(atlas.get(200 + id).is_some(), "tile {id} missing");
    }
}

#[test]
fn tilesheet_fails_when_the_atlas_is_too_small() {
    let bytes = vec![255u8; 16];
    let mut atlas = Atlas::new(1, 1, 1);
    // The placeholders fill the single 1 by 1 layer; the tiles cannot fit.
    assert!(TileSheet::new(&bytes, 2, 2, 300, &mut atlas, 1).is_none());
}
