use graphics::atlas::{Allocation, Atlas, AtlasError};

fn rgba(w: u32, h: u32) -> Vec<u8> {
    vec![0u8; (4 * w * h) as usize]
}

#[test]
fn first_upload_lands_at_origin() {
    let mut atlas = Atlas::new(256, 256, 4);
    let a = atlas.upload(10, rgba(32, 16), 32, 16, 0).unwrap();
    assert_eq!(
        a,
        Allocation { layer: 0, x: 0, y: 0, width: 32, height: 16 }
    );
}

#[test]
fn uploads_share_a_shelf_left_to_right() {
    let mut atlas = Atlas::new(256, 256, 4);
    let a = atlas.upload(1, rgba(32, 16), 32, 16, 0).unwrap();
    let b = atlas.upload(2, rgba(40, 16), 40, 16, 0).unwrap();
    assert_eq!(a.x, 0);
    assert_eq!(b.x, 32);
    assert_eq!(b.y, 0);
    assert_eq!(a.layer, b.layer);
}

#[test]
fn full_shelf_opens_a_new_row() {
    let mut atlas = Atlas::new(64, 64, 1);
    let a = atlas.upload(1, rgba(40, 16), 40, 16, 0).unwrap();
    // No room left on the 64-wide shelf for another 40-wide bitmap.
    let b = atlas.upload(2, rgba(40, 8), 40, 8, 0).unwrap();
    assert_eq!(a.y, 0);
    assert_eq!(b.x, 0);
    assert_eq!(b.y, 16);
}

#[test]
fn no_two_placements_overlap() {
    let mut atlas = Atlas::new(128, 128, 2);
    let mut placements: Vec<Allocation> = Vec::new();
    for key in 0..20u64 {
        let a = atlas.upload(key, rgba(30, 20), 30, 20, 0).unwrap();
        placements.push(a);
    }
    for i in 0..placements.len() {
        for j in 0..placements.len() {
            if i != j && placements[i].layer == placements[j].layer {
                let a = placements[i];
                let b = placements[j];
                let apart_x = a.x + a.width <= b.x || b.x + b.width <= a.x;
                let apart_y = a.y + a.height <= b.y || b.y + b.height <= a.y;
                assert!(apart_x || apart_y, "placements {i} and {j} overlap");
            }
        }
    }
}

#[test]
fn reupload_returns_identical_allocation_without_repacking() {
    let mut atlas = Atlas::new(256, 256, 4);
    let first = atlas.upload(7, rgba(32, 32), 32, 32, 0).unwrap();
    let cached_before = atlas.cache_len();
    let pending_before = atlas.pending.len();
    let second = atlas.upload(7, rgba(32, 32), 32, 32, 0).unwrap();
    assert_eq!(first, second);
    // A cache hit packs nothing and stages no pixels.
    assert_eq!(atlas.cache_len(), cached_before);
    assert_eq!(atlas.pending.len(), pending_before);
}

#[test]
fn get_finds_cached_placement_without_packing() {
    let mut atlas = Atlas::new(256, 256, 4);
    assert_eq!(atlas.get(9), None);
    let a = atlas.upload(9, rgba(8, 8), 8, 8, 0).unwrap();
    assert_eq!(atlas.get(9), Some(a));
    assert_eq!(atlas.get(10), None);
}

#[test]
fn zero_sized_bitmap_is_rejected_at_the_boundary() {
    let mut atlas = Atlas::new(256, 256, 4);
    assert_eq!(
        atlas.upload(1, rgba(0, 8), 0, 8, 0),
        Err(AtlasError::ZeroSize)
    );
    assert_eq!(
        atlas.upload(2, rgba(8, 0), 8, 0, 0),
        Err(AtlasError::ZeroSize)
    );
    assert_eq!(atlas.cache_len(), 0);
}

#[test]
fn oversized_bitmap_fails_regardless_of_free_space() {
    let mut atlas = Atlas::new(64, 64, 8);
    assert_eq!(
        atlas.upload(1, rgba(65, 1), 65, 1, 0),
        Err(AtlasError::AtlasFull)
    );
}

#[test]
fn layer_budget_spent_fails_with_atlas_full() {
    let mut atlas = Atlas::new(16, 16, 1);
    atlas.upload(1, rgba(16, 16), 16, 16, 0).unwrap();
    assert_eq!(
        atlas.upload(2, rgba(16, 16), 16, 16, 0),
        Err(AtlasError::AtlasFull)
    );
    // With room for one more layer the same upload succeeds.
    let mut atlas2 = Atlas::new(16, 16, 2);
    atlas2.upload(1, rgba(16, 16), 16, 16, 0).unwrap();
    let b = atlas2.upload(2, rgba(16, 16), 16, 16, 0).unwrap();
    assert_eq!(b.layer, 1);
}

#[test]
fn fresh_upload_stages_its_pixels() {
    let mut atlas = Atlas::new(64, 64, 1);
    let pixels: Vec<u8> = (0..16u8).collect();
    let a = atlas.upload(3, pixels.clone(), 2, 2, 0).unwrap();
    assert_eq!(atlas.pending.len(), 1);
    assert_eq!(atlas.pending[0].0, a);
    assert_eq!(atlas.pending[0].1, pixels);
}

#[test]
fn end_to_end_atlas_two_small_uploads_then_oversized() {
    let mut atlas = Atlas::new(2048, 2048, 4);
    let a = atlas.upload(100, rgba(64, 64), 64, 64, 0).unwrap();
    let b = atlas.upload(101, rgba(64, 64), 64, 64, 0).unwrap();
    assert_eq!(a.layer, 0);
    assert_eq!(b.layer, 0);
    assert!((a.x, a.y) != (b.x, b.y));
    let apart_x = a.x + a.width <= b.x || b.x + b.width <= a.x;
    let apart_y = a.y + a.height <= b.y || b.y + b.height <= a.y;
    assert!(apart_x || apart_y);
    assert_eq!(
        atlas.upload(102, rgba(2049, 2049), 2049, 2049, 0),
        Err(AtlasError::AtlasFull)
    );
}
