use graphics::arena::{Arena, Handle};
use graphics::instance::InstanceBuffer;
use graphics::maps::MapRenderer;
use graphics::order::{DrawOrder, OrderedIndex};

#[test]
fn allocate_starts_empty_and_changed() {
    let mut arena = Arena::new();
    let h = arena.allocate();
    assert_eq!(h, Handle { slot: 0, generation: 0 });
    assert!(arena.contains(h));
    assert_eq!(arena.get_bytes(h).map(|b| b.len()), Some(0));
    assert_eq!(arena.get_changed(h), Some(true));
}

#[test]
fn freed_handle_fails_lookup_after_any_reallocation() {
    let mut arena = Arena::new();
    let h1 = arena.allocate();
    assert!(arena.free(h1));
    assert!(!arena.contains(h1));
    assert!(arena.get_bytes(h1).is_none());
    let h2 = arena.allocate();
    // The slot is recycled under a newer generation; the old handle stays dead.
    assert_eq!(h2.slot, h1.slot);
    assert!(h2.generation > h1.generation);
    assert!(!arena.contains(h1));
    assert!(arena.get_bytes(h1).is_none());
    assert!(arena.contains(h2));
}

#[test]
fn end_to_end_arena_slot_reuse_keeps_neighbors_valid() {
    let mut arena = Arena::new();
    let h1 = arena.allocate();
    let h2 = arena.allocate();
    let h3 = arena.allocate();
    assert!(arena.store_bytes(h1, vec![1]));
    assert!(arena.store_bytes(h3, vec![3]));
    assert!(arena.free(h2));
    let h4 = arena.allocate();
    assert_eq!(h4.slot, h2.slot);
    assert_eq!(h4.generation, h2.generation + 1);
    assert!(!arena.contains(h2));
    assert!(arena.contains(h1));
    assert!(arena.contains(h3));
    assert_eq!(arena.get_bytes(h1).map(|b| b.clone()), Some(vec![1]));
    assert_eq!(arena.get_bytes(h3).map(|b| b.clone()), Some(vec![3]));
}

#[test]
fn store_bytes_marks_changed_and_mark_clean_clears_it() {
    let mut arena = Arena::new();
    let h = arena.allocate();
    assert!(arena.mark_clean(h));
    assert_eq!(arena.get_changed(h), Some(false));
    assert!(arena.store_bytes(h, vec![9, 9]));
    assert_eq!(arena.get_changed(h), Some(true));
    assert_eq!(arena.get_bytes(h).map(|b| b.clone()), Some(vec![9, 9]));
    let stale = Handle { slot: 5, generation: 0 };
    assert!(!arena.store_bytes(stale, vec![1]));
    assert!(!arena.mark_clean(stale));
    assert!(!arena.free(stale));
}

fn order(seq: u32) -> DrawOrder {
    DrawOrder::new(false, [0, 0, 0], seq)
}

#[test]
fn registering_n_distinct_handles_counts_n() {
    let mut arena = Arena::new();
    let mut buffer = InstanceBuffer::with_capacity(2);
    for i in 0..5u32 {
        let h = arena.allocate();
        arena.store_bytes(h, vec![i as u8]);
        assert!(buffer.add_buffer_store(&arena, OrderedIndex::new(order(i), h)));
    }
    buffer.finalize();
    assert_eq!(buffer.count(), 5);
    assert_eq!(buffer.contents, vec![0, 1, 2, 3, 4]);
}

#[test]
fn registering_same_handle_twice_overwrites_its_slot() {
    let mut arena = Arena::new();
    let mut buffer = InstanceBuffer::with_capacity(8);
    let h1 = arena.allocate();
    let h2 = arena.allocate();
    arena.store_bytes(h1, vec![1]);
    arena.store_bytes(h2, vec![2]);
    buffer.add_buffer_store(&arena, OrderedIndex::new(order(0), h1));
    buffer.add_buffer_store(&arena, OrderedIndex::new(order(1), h2));
    arena.store_bytes(h1, vec![7]);
    buffer.add_buffer_store(&arena, OrderedIndex::new(order(2), h1));
    buffer.finalize();
    assert_eq!(buffer.count(), 2);
    // The re-registration overwrote the first slot in place.
    assert_eq!(buffer.contents, vec![7, 2]);
}

#[test]
fn stale_handle_registers_nothing() {
    let mut arena = Arena::new();
    let mut buffer = InstanceBuffer::with_capacity(1);
    let h = arena.allocate();
    arena.free(h);
    assert!(!buffer.add_buffer_store(&arena, OrderedIndex::new(order(0), h)));
    buffer.finalize();
    assert_eq!(buffer.count(), 0);
    assert_eq!(buffer.draw_range(), None);
}

#[test]
fn finalize_grows_capacity_geometrically() {
    let mut arena = Arena::new();
    let mut buffer = InstanceBuffer::with_capacity(1);
    for _ in 0..3 {
        let h = arena.allocate();
        arena.store_bytes(h, vec![0]);
        buffer.add_buffer_store(&arena, OrderedIndex::new(order(0), h));
    }
    buffer.finalize();
    // Demand 3 over capacity 1: doubling is not enough, grow to the demand.
    assert_eq!(buffer.capacity, 3);
    assert_eq!(buffer.count(), 3);
    let h = arena.allocate();
    arena.store_bytes(h, vec![0]);
    for _ in 0..4 {
        buffer.add_buffer_store(&arena, OrderedIndex::new(order(0), h));
    }
    buffer.finalize();
    // One handle registered four times stays one instance.
    assert_eq!(buffer.count(), 1);
    // Capacity never shrinks.
    assert_eq!(buffer.capacity, 3);
    assert_eq!(buffer.draw_range(), Some(1));
}

#[test]
fn map_renderer_sizes_its_buffers_per_map() {
    let r = MapRenderer::new(2);
    assert_eq!(r.maplower_buffer.capacity, 60);
    assert_eq!(r.mapupper_buffer.capacity, 30);
    assert_eq!(r.maplower_buffer.count(), 0);
    assert_eq!(r.mapupper_buffer.count(), 0);
}

#[test]
fn map_renderer_composes_both_halves() {
    let mut arena = Arena::new();
    let mut renderer = MapRenderer::new(1);
    let lower = arena.allocate();
    let upper = arena.allocate();
    arena.store_bytes(lower, vec![1, 2]);
    arena.store_bytes(upper, vec![3]);
    let pair = (
        OrderedIndex::new(order(0), lower),
        OrderedIndex::new(order(0), upper),
    );
    renderer.add_buffer_store(&arena, pair);
    renderer.finalize();
    assert_eq!(renderer.maplower_buffer.count(), 1);
    assert_eq!(renderer.mapupper_buffer.count(), 1);
    assert_eq!(renderer.maplower_buffer.contents, vec![1, 2]);
    assert_eq!(renderer.mapupper_buffer.contents, vec![3]);
}

#[test]
fn map_id_pool_hands_out_and_reclaims_ids() {
    let mut renderer = MapRenderer::new(2);
    let a = renderer.get_unused_id();
    let b = renderer.get_unused_id();
    assert_eq!(a, Some(1));
    assert_eq!(b, Some(0));
    assert_eq!(renderer.get_unused_id(), None);
    assert!(renderer.mark_id_unused(1));
    // Double-release and foreign ids are refused.
    assert!(!renderer.mark_id_unused(1));
    assert!(!renderer.mark_id_unused(9));
    assert_eq!(renderer.get_unused_id(), Some(1));
}
