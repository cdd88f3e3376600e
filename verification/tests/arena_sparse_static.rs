use murk::arena::handle::FieldLocation;
use murk::arena::segment::SegmentList;
use murk::arena::sparse::SparseSlab;
use murk::arena::static_arena::StaticArena;
use murk::id::FieldId;
use std::sync::Arc;

fn make_segments() -> SegmentList<f32> {
    SegmentList::new(4096, 4, 0.0)
}

#[test]
fn alloc_creates_live_slot() {
    let mut slab = SparseSlab::new();
    let mut segs = make_segments();
    let handle = slab.allocate(FieldId(0), 100, 1, &mut segs).unwrap();
    assert_eq!(handle.len(), 100);
    assert_eq!(handle.generation(), 1);
    assert!(matches!(handle.location(), FieldLocation::Sparse { .. }));
    assert_eq!(slab.live_count(), 1);
}

#[test]
fn realloc_marks_old_slot_dead() {
    let mut slab = SparseSlab::new();
    let mut segs = make_segments();

    let h1 = slab.allocate(FieldId(0), 100, 1, &mut segs).unwrap();
    let h2 = slab.allocate(FieldId(0), 100, 2, &mut segs).unwrap();

    assert_eq!(h1.generation(), 1);
    assert_eq!(h2.generation(), 2);

    assert_eq!(slab.live_count(), 1);
    let live_h = slab.get_handle(FieldId(0)).unwrap();
    assert_eq!(live_h.generation(), 2);
}

#[test]
fn get_handle_returns_none_for_unknown() {
    let slab = SparseSlab::new();
    assert!(slab.get_handle(FieldId(99)).is_none());
}

#[test]
fn multiple_fields_tracked_independently() {
    let mut slab = SparseSlab::new();
    let mut segs = make_segments();

    slab.allocate(FieldId(0), 50, 1, &mut segs).unwrap();
    slab.allocate(FieldId(1), 75, 1, &mut segs).unwrap();

    assert_eq!(slab.live_count(), 2);
    assert_eq!(slab.get_handle(FieldId(0)).unwrap().len(), 50);
    assert_eq!(slab.get_handle(FieldId(1)).unwrap().len(), 75);
}

#[test]
fn free_slots_are_reused() {
    let mut slab = SparseSlab::new();
    let mut segs = make_segments();

    slab.allocate(FieldId(0), 50, 1, &mut segs).unwrap();
    slab.allocate(FieldId(0), 50, 2, &mut segs).unwrap();

    assert_eq!(slab.total_slots(), 1);
}

#[test]
fn retired_range_reused_after_flush() {
    let mut slab = SparseSlab::new();
    let mut segs = make_segments();

    slab.allocate(FieldId(0), 100, 0, &mut segs).unwrap();
    let used_after_init = segs.total_used();

    slab.allocate(FieldId(0), 100, 1, &mut segs).unwrap();
    let used_after_cow1 = segs.total_used();
    assert!(used_after_cow1 > used_after_init);
    assert_eq!(slab.pending_retired_count(), 1);
    assert_eq!(slab.retired_range_count(), 0);

    slab.flush_retired();
    assert_eq!(slab.pending_retired_count(), 0);
    assert_eq!(slab.retired_range_count(), 1);

    slab.allocate(FieldId(0), 100, 2, &mut segs).unwrap();
    assert_eq!(segs.total_used(), used_after_cow1, "no new segment memory consumed");
    assert_eq!(slab.retired_range_count(), 0, "retired range was consumed");
}

#[test]
fn pending_retired_not_reused_before_flush() {
    let mut slab = SparseSlab::new();
    let mut segs = make_segments();

    slab.allocate(FieldId(0), 100, 0, &mut segs).unwrap();
    slab.allocate(FieldId(0), 100, 1, &mut segs).unwrap();
    let used_before = segs.total_used();

    slab.allocate(FieldId(0), 100, 2, &mut segs).unwrap();
    assert!(
        segs.total_used() > used_before,
        "should bump-allocate because pending ranges are not reusable"
    );
}

#[test]
fn many_cow_writes_with_flush_stays_bounded() {
    let mut slab = SparseSlab::new();
    let mut segs = SegmentList::new(1024, 2, 0.0f32);

    slab.allocate(FieldId(0), 100, 0, &mut segs).unwrap();

    for gen in 1..=50u32 {
        slab.flush_retired();
        slab.allocate(FieldId(0), 100, gen, &mut segs).unwrap();
    }
    assert!(segs.total_used() <= 300);
}

#[test]
fn alloc_falls_back_to_bump_when_no_size_match() {
    let mut slab = SparseSlab::new();
    let mut segs = make_segments();

    slab.allocate(FieldId(0), 100, 0, &mut segs).unwrap();
    slab.allocate(FieldId(1), 100, 0, &mut segs).unwrap();

    slab.allocate(FieldId(0), 100, 1, &mut segs).unwrap();
    slab.allocate(FieldId(1), 100, 1, &mut segs).unwrap();
    slab.flush_retired();
    assert_eq!(slab.retired_range_count(), 2);

    let used_before = segs.total_used();

    slab.allocate(FieldId(2), 200, 2, &mut segs).unwrap();
    assert!(
        segs.total_used() > used_before,
        "should bump-allocate when no retired range matches the requested size"
    );
    assert_eq!(slab.retired_range_count(), 2);
}

#[test]
fn three_fields_same_size_all_ranges_retired() {
    let mut slab = SparseSlab::new();
    let mut segs = make_segments();

    slab.allocate(FieldId(0), 100, 0, &mut segs).unwrap();
    slab.allocate(FieldId(1), 100, 0, &mut segs).unwrap();
    slab.allocate(FieldId(2), 100, 0, &mut segs).unwrap();

    slab.allocate(FieldId(0), 100, 1, &mut segs).unwrap();
    slab.allocate(FieldId(1), 100, 1, &mut segs).unwrap();
    slab.allocate(FieldId(2), 100, 1, &mut segs).unwrap();
    slab.flush_retired();
    assert_eq!(slab.retired_range_count(), 3);

    let used_before = segs.total_used();

    slab.allocate(FieldId(0), 100, 2, &mut segs).unwrap();
    slab.allocate(FieldId(1), 100, 2, &mut segs).unwrap();
    slab.allocate(FieldId(2), 100, 2, &mut segs).unwrap();

    assert_eq!(
        segs.total_used(),
        used_before,
        "no new segment memory consumed — all retired ranges reused"
    );
    assert_eq!(slab.retired_range_count(), 0, "all retired ranges consumed");
}

#[test]
fn different_size_ranges_not_mixed() {
    let mut slab = SparseSlab::new();
    let mut segs = make_segments();

    slab.allocate(FieldId(0), 100, 0, &mut segs).unwrap();
    slab.allocate(FieldId(1), 200, 0, &mut segs).unwrap();

    slab.allocate(FieldId(0), 100, 1, &mut segs).unwrap();
    slab.allocate(FieldId(1), 200, 1, &mut segs).unwrap();
    slab.flush_retired();

    let used_before = segs.total_used();

    slab.allocate(FieldId(1), 200, 2, &mut segs).unwrap();
    assert_eq!(segs.total_used(), used_before);
    assert_eq!(slab.retired_range_count(), 1);
}

#[test]
fn new_creates_zeroed_storage() {
    let arena = StaticArena::new(&[(FieldId(0), 100), (FieldId(1), 50)], 0.0f32);
    let data = arena.read_field(FieldId(0)).unwrap();
    assert_eq!(data.len(), 100);
    assert!(data.iter().all(|&v| v == 0.0));
}

#[test]
fn write_and_read_round_trip() {
    let mut arena = StaticArena::new(&[(FieldId(0), 10)], 0.0f32);
    assert!(arena.write_field(FieldId(0), 0, &[42.0]));
    assert!(arena.write_field(FieldId(0), 9, &[99.0]));
    let data = arena.read_field(FieldId(0)).unwrap();
    assert_eq!(data[0], 42.0);
    assert_eq!(data[9], 99.0);
}

#[test]
fn fields_dont_overlap() {
    let mut arena = StaticArena::new(&[(FieldId(0), 10), (FieldId(1), 5)], 0.0f32);
    assert!(arena.write_field(FieldId(0), 0, &[1.0; 10]));
    assert!(arena.write_field(FieldId(1), 0, &[2.0; 5]));
    assert!(arena.read_field(FieldId(0)).unwrap().iter().all(|&v| v == 1.0));
    assert!(arena.read_field(FieldId(1)).unwrap().iter().all(|&v| v == 2.0));
}

#[test]
fn static_arena_unknown_field_returns_none() {
    let arena = StaticArena::new(&[(FieldId(0), 10)], 0.0f32);
    assert!(arena.read_field(FieldId(99)).is_none());
}

#[test]
fn into_shared_creates_arc() {
    let arena = StaticArena::new(&[(FieldId(0), 10)], 0.0f32);
    let shared = arena.into_shared();
    assert_eq!(Arc::strong_count(&shared), 1);
    let shared2 = Arc::clone(&shared);
    assert_eq!(Arc::strong_count(&shared), 2);
    assert_eq!(shared2.read_field(FieldId(0)).unwrap().len(), 10);
}

#[test]
fn field_location_returns_offset_and_len() {
    let arena = StaticArena::new(&[(FieldId(0), 10), (FieldId(1), 5)], 0.0f32);
    let (off, len) = arena.field_location(FieldId(0)).unwrap();
    assert_eq!(off, 0);
    assert_eq!(len, 10);
    let (off, len) = arena.field_location(FieldId(1)).unwrap();
    assert_eq!(off, 10);
    assert_eq!(len, 5);
}

#[test]
fn memory_bytes_accounts_for_all_fields() {
    let arena = StaticArena::new(&[(FieldId(0), 100), (FieldId(1), 50)], 0.0f32);
    assert_eq!(arena.memory_bytes(), 150 * 4);
}

#[test]
fn new_accepts_distinct_field_ids() {
    let arena = StaticArena::new(&[(FieldId(0), 10), (FieldId(1), 20), (FieldId(2), 30)], 0.0f32);
    assert_eq!(arena.field_count(), 3);
    assert_eq!(arena.memory_bytes(), 60 * 4);
}

#[test]
fn static_write_past_end_is_refused() {
    let mut arena = StaticArena::new(&[(FieldId(0), 10)], 0.0f32);
    assert!(!arena.write_field(FieldId(0), 9, &[1.0, 2.0]));
    assert!(!arena.write_field(FieldId(7), 0, &[1.0]));
    assert!(arena.contains(FieldId(0)));
    assert!(!arena.contains(FieldId(7)));
}
