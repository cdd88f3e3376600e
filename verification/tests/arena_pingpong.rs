use murk::engine::apply::{apply_set_field, seed_incremental};
use murk::arena::config::ArenaConfig;
use murk::arena::descriptor::FieldDescriptor;
use murk::arena::handle::{FieldHandle, FieldLocation};
use murk::arena::pingpong::{OwnedSnapshot, PingPongArena, Snapshot};
use murk::arena::segment::SegmentList;
use std::sync::Arc;
use murk::arena::static_arena::StaticArena;
use murk::error::ArenaError;
use murk::field::{BoundaryBehavior, FieldDef, FieldMutability, FieldType};
use murk::id::{FieldId, ParameterVersion, TickId, WorldGenerationId};

fn def(name: &str, field_type: FieldType, mutability: FieldMutability) -> FieldDef {
    FieldDef {
        name: name.into(),
        field_type,
        mutability,
        units: None,
        boundary_behavior: BoundaryBehavior::Clamp,
    }
}

fn make_field_defs() -> Vec<(FieldId, FieldDef)> {
    vec![
        (FieldId(0), def("temperature", FieldType::Scalar, FieldMutability::PerTick)),
        (FieldId(1), def("velocity", FieldType::Vector { dims: 3 }, FieldMutability::PerTick)),
        (FieldId(2), def("terrain", FieldType::Scalar, FieldMutability::Static)),
        (FieldId(3), def("resources", FieldType::Scalar, FieldMutability::Sparse)),
    ]
}

fn make_arena() -> PingPongArena<f32> {
    let cell_count = 100u32;
    let config = ArenaConfig::new(cell_count);
    let field_defs = make_field_defs();

    // Build static arena with terrain data.
    let static_fields: Vec<(FieldId, u32)> = field_defs
        .iter()
        .filter(|(_, d)| d.mutability == FieldMutability::Static)
        .map(|(id, d)| (*id, cell_count * d.field_type.components()))
        .collect();

    let mut static_arena = StaticArena::new(&static_fields, 0.0f32);
    // Fill terrain with recognisable data.
    let terrain: Vec<f32> = (0..100).map(|i| i as f32).collect();
    assert!(static_arena.write_field(FieldId(2), 0, &terrain));
    let shared_static = static_arena.into_shared();

    PingPongArena::new(config, field_defs, shared_static, 0.0).unwrap()
}

fn single_per_tick_defs() -> Vec<(FieldId, FieldDef)> {
    vec![(FieldId(0), def("temp", FieldType::Scalar, FieldMutability::PerTick))]
}

#[test]
fn new_arena_starts_at_generation_zero() {
    let arena = make_arena();
    assert_eq!(arena.generation(), 0);
}

#[test]
fn begin_tick_and_write() {
    let mut arena = make_arena();
    arena.begin_tick().unwrap();
    let data = arena.read_staged(FieldId(0)).unwrap();
    assert_eq!(data.len(), 100); // cell_count * 1 component
    assert!(arena.write_field(FieldId(0), 0, &[42.0]));
    assert_eq!(arena.read_staged(FieldId(0)).unwrap()[0], 42.0);
}

#[test]
fn publish_increments_generation() {
    let mut arena = make_arena();
    arena.begin_tick().unwrap();
    arena.publish(TickId(1), ParameterVersion(0)).unwrap();
    assert_eq!(arena.generation(), 1);
}

#[test]
fn snapshot_reads_published_data() {
    let mut arena = make_arena();

    // Tick 1: write temperature.
    arena.begin_tick().unwrap();
    assert!(arena.write_field(FieldId(0), 0, &[42.0]));
    assert!(arena.write_field(FieldId(0), 99, &[99.0]));
    arena.publish(TickId(1), ParameterVersion(0)).unwrap();

    // Read snapshot.
    let snap = arena.snapshot();
    let data = snap.read_field(FieldId(0)).unwrap();
    assert_eq!(data[0], 42.0);
    assert_eq!(data[99], 99.0);
}

#[test]
fn snapshot_reads_static_fields() {
    let mut arena = make_arena();
    arena.begin_tick().unwrap();
    arena.publish(TickId(1), ParameterVersion(0)).unwrap();

    let snap = arena.snapshot();
    let terrain = snap.read_field(FieldId(2)).unwrap();
    assert_eq!(terrain[0], 0.0);
    assert_eq!(terrain[50], 50.0);
    assert_eq!(terrain[99], 99.0);
}

#[test]
fn snapshot_metadata_matches_publish_args() {
    let mut arena = make_arena();
    arena.begin_tick().unwrap();
    arena.publish(TickId(5), ParameterVersion(3)).unwrap();

    let snap = arena.snapshot();
    assert_eq!(snap.tick_id(), TickId(5));
    assert_eq!(snap.parameter_version(), ParameterVersion(3));
}

#[test]
fn ping_pong_alternates_buffers() {
    let mut arena = make_arena();

    // Tick 1: write temp = 1.0
    arena.begin_tick().unwrap();
    assert!(arena.write_field(FieldId(0), 0, &[1.0]));
    arena.publish(TickId(1), ParameterVersion(0)).unwrap();

    // Verify tick 1 data in snapshot.
    assert_eq!(arena.snapshot().read_field(FieldId(0)).unwrap()[0], 1.0);

    // Tick 2: write temp = 2.0 (should be in different buffer).
    arena.begin_tick().unwrap();
    // Pre-allocated zeroes (not the old 1.0, because this is a fresh buffer).
    assert_eq!(arena.read_staged(FieldId(0)).unwrap()[0], 0.0);
    assert!(arena.write_field(FieldId(0), 0, &[2.0]));
    arena.publish(TickId(2), ParameterVersion(0)).unwrap();

    // Verify tick 2 data in snapshot.
    assert_eq!(arena.snapshot().read_field(FieldId(0)).unwrap()[0], 2.0);
}

#[test]
fn vector_field_has_correct_size() {
    let mut arena = make_arena();
    arena.begin_tick().unwrap();
    let vel = arena.read_staged(FieldId(1)).unwrap();
    // velocity is Vector{dims:3}, cell_count=100, so len = 300.
    assert_eq!(vel.len(), 300);
}

#[test]
fn scratch_resets_between_ticks() {
    let mut arena = make_arena();
    arena.begin_tick().unwrap();
    arena.scratch().allocate(50).unwrap();
    assert_eq!(arena.scratch().used(), 50);
    arena.publish(TickId(1), ParameterVersion(0)).unwrap();

    // Next tick: scratch should be reset.
    arena.begin_tick().unwrap();
    assert_eq!(arena.scratch().used(), 0);
}

#[test]
fn reset_returns_to_initial_state() {
    let mut arena = make_arena();

    // Run a few ticks.
    for i in 1..=5u64 {
        arena.begin_tick().unwrap();
        assert!(arena.write_field(FieldId(0), 0, &[i as f32]));
        arena.publish(TickId(i), ParameterVersion(0)).unwrap();
    }
    assert_eq!(arena.generation(), 5);

    arena.reset().unwrap();
    assert_eq!(arena.generation(), 0);
}

#[test]
fn memory_bytes_is_positive() {
    let arena = make_arena();
    assert!(arena.memory_bytes() > 0);
}

#[test]
fn multi_tick_round_trip() {
    let mut arena = make_arena();

    for tick in 1u64..=10 {
        arena.begin_tick().unwrap();
        assert!(arena.write_field(FieldId(0), 0, &[tick as f32]));
        arena.publish(TickId(tick), ParameterVersion(0)).unwrap();

        let snap = arena.snapshot();
        assert_eq!(snap.read_field(FieldId(0)).unwrap()[0], tick as f32);
        assert_eq!(snap.tick_id(), TickId(tick));
    }
}

#[test]
fn sparse_field_persists_across_ticks() {
    let mut arena = make_arena();

    // Tick 1: write sparse field.
    arena.begin_tick().unwrap();
    assert!(arena.write_field(FieldId(3), 0, &[77.0]));
    arena.publish(TickId(1), ParameterVersion(0)).unwrap();

    // Tick 2: don't write sparse field — it should persist.
    arena.begin_tick().unwrap();
    arena.publish(TickId(2), ParameterVersion(0)).unwrap();

    let snap = arena.snapshot();
    let data = snap.read_field(FieldId(3)).unwrap();
    assert_eq!(data[0], 77.0);
}

#[test]
fn new_fails_when_static_field_missing_from_static_arena() {
    let config = ArenaConfig::new(100);
    let field_defs = vec![(FieldId(0), def("terrain", FieldType::Scalar, FieldMutability::Static))];
    // Empty static arena — FieldId(0) is not present.
    let static_arena = StaticArena::new(&[], 0.0f32).into_shared();
    let result = PingPongArena::new(config, field_defs, static_arena, 0.0);
    assert!(matches!(result, Err(ArenaError::UnknownField { field: FieldId(0) })));
}

#[test]
fn new_fails_when_sparse_field_exceeds_segment_size() {
    // Minimum valid segment (1024) that can't fit the sparse field (2000).
    let config = ArenaConfig {
        segment_size: 1024,
        max_segments: 16,
        max_generation_age: 1,
        cell_count: 2000,
    };
    let field_defs = vec![(FieldId(0), def("resource", FieldType::Scalar, FieldMutability::Sparse))];
    let static_arena = StaticArena::new(&[], 0.0f32).into_shared();
    let result = PingPongArena::new(config, field_defs, static_arena, 0.0);
    assert!(matches!(result, Err(ArenaError::CapacityExceeded { .. })));
}

#[test]
fn new_rejects_max_segments_below_3() {
    for bad_max in [0u16, 1, 2] {
        let static_arena = StaticArena::new(&[], 0.0f32).into_shared();
        let config = ArenaConfig {
            segment_size: 1024,
            max_segments: bad_max,
            max_generation_age: 1,
            cell_count: 10,
        };
        let result = PingPongArena::new(config, single_per_tick_defs(), static_arena, 0.0);
        assert!(
            matches!(result, Err(ArenaError::InvalidConfig { .. })),
            "max_segments={bad_max} should be rejected"
        );
    }
}

#[test]
fn new_accepts_max_segments_of_3() {
    let static_arena = StaticArena::new(&[], 0.0f32).into_shared();
    let config = ArenaConfig {
        segment_size: 1024,
        max_segments: 3,
        max_generation_age: 1,
        cell_count: 10,
    };
    assert!(PingPongArena::new(config, single_per_tick_defs(), static_arena, 0.0).is_ok());
}

#[test]
fn test_owned_snapshot_from_arena() {
    let mut arena = make_arena();

    // Tick 1: write temperature.
    arena.begin_tick().unwrap();
    assert!(arena.write_field(FieldId(0), 0, &[42.0]));
    assert!(arena.write_field(FieldId(0), 99, &[99.0]));
    arena.publish(TickId(1), ParameterVersion(0)).unwrap();

    let owned = arena.owned_snapshot();
    let data = owned.read_field(FieldId(0)).unwrap();
    assert_eq!(data[0], 42.0);
    assert_eq!(data[99], 99.0);

    // Static field should also be readable.
    let terrain = owned.read_field(FieldId(2)).unwrap();
    assert_eq!(terrain[50], 50.0);

    // Metadata should match.
    assert_eq!(owned.tick_id(), TickId(1));
}

#[test]
fn test_owned_snapshot_survives_mutation() {
    let mut arena = make_arena();

    // Tick 1.
    arena.begin_tick().unwrap();
    assert!(arena.write_field(FieldId(0), 0, &[42.0]));
    arena.publish(TickId(1), ParameterVersion(0)).unwrap();

    let owned = arena.owned_snapshot();

    // Tick 2: mutate the arena.
    arena.begin_tick().unwrap();
    assert!(arena.write_field(FieldId(0), 0, &[999.0]));
    arena.publish(TickId(2), ParameterVersion(0)).unwrap();

    // OwnedSnapshot from tick 1 should be unaffected.
    assert_eq!(owned.read_field(FieldId(0)).unwrap()[0], 42.0);
    assert_eq!(owned.tick_id(), TickId(1));

    // New snapshot should see tick 2 data.
    let snap = arena.snapshot();
    assert_eq!(snap.read_field(FieldId(0)).unwrap()[0], 999.0);
}

#[test]
fn global_segment_budget_is_respected() {
    // With max_segments = 6, each per-tick buffer gets 2, sparse gets 2.
    let config = ArenaConfig {
        segment_size: 1024,
        max_segments: 6,
        max_generation_age: 1,
        cell_count: 10,
    };
    let static_arena = StaticArena::new(&[], 0.0f32).into_shared();
    let arena = PingPongArena::new(config, single_per_tick_defs(), static_arena, 0.0).unwrap();

    let total_bytes = arena.memory_bytes();
    let max_allowed = 6 * 1024 * std::mem::size_of::<f32>();
    // memory_bytes includes static + scratch; just verify it's bounded.
    assert!(total_bytes <= max_allowed + arena.static_arena().memory_bytes() + 1024 * 4);
}

#[test]
fn new_rejects_non_power_of_two_segment_size() {
    let config = ArenaConfig {
        segment_size: 1000, // not a power of two
        max_segments: 16,
        max_generation_age: 1,
        cell_count: 10,
    };
    let static_arena = StaticArena::new(&[], 0.0f32).into_shared();
    let result = PingPongArena::new(config, vec![], static_arena, 0.0);
    assert!(
        matches!(result, Err(ArenaError::InvalidConfig { .. })),
        "segment_size=1000 (not power of two) should be rejected"
    );
}

#[test]
fn new_rejects_segment_size_below_1024() {
    let config = ArenaConfig {
        segment_size: 512, // power of two but below 1024
        max_segments: 16,
        max_generation_age: 1,
        cell_count: 10,
    };
    let static_arena = StaticArena::new(&[], 0.0f32).into_shared();
    let result = PingPongArena::new(config, vec![], static_arena, 0.0);
    assert!(
        matches!(result, Err(ArenaError::InvalidConfig { .. })),
        "segment_size=512 (below 1024) should be rejected"
    );
}

#[test]
fn new_accepts_segment_size_of_1024() {
    let config = ArenaConfig {
        segment_size: 1024,
        max_segments: 16,
        max_generation_age: 1,
        cell_count: 10,
    };
    let static_arena = StaticArena::new(&[], 0.0f32).into_shared();
    assert!(PingPongArena::new(config, vec![], static_arena, 0.0).is_ok());
}

#[test]
fn publish_without_begin_tick_returns_error() {
    let mut arena = make_arena();
    let result = arena.publish(TickId(1), ParameterVersion(0));
    assert!(matches!(result, Err(ArenaError::InvalidConfig { .. })));
}

#[test]
fn double_publish_returns_error() {
    let mut arena = make_arena();
    arena.begin_tick().unwrap();
    arena.publish(TickId(1), ParameterVersion(0)).unwrap();
    // Second publish without begin_tick should fail.
    let result = arena.publish(TickId(2), ParameterVersion(0));
    assert!(matches!(result, Err(ArenaError::InvalidConfig { .. })));
}

// Reads through snapshots built from pools and a descriptor.

fn make_test_snapshot() -> (SegmentList<f32>, SegmentList<f32>, StaticArena<f32>, FieldDescriptor) {
    let defs = vec![
        (FieldId(0), def("temp", FieldType::Scalar, FieldMutability::PerTick)),
        (FieldId(1), def("terrain", FieldType::Scalar, FieldMutability::Static)),
    ];

    let cell_count = 10u32;
    let mut desc = FieldDescriptor::from_field_defs(&defs, cell_count).unwrap();

    // Set up per-tick segments with data.
    let mut per_tick = SegmentList::new(4096, 4, 0.0f32);
    let (seg_idx, offset) = per_tick.allocate(cell_count).unwrap();
    per_tick.write(seg_idx, offset, &[1.0]);
    per_tick.write(seg_idx, offset + 9, &[10.0]);
    desc.update_handle(
        FieldId(0),
        FieldHandle::new(1, offset, cell_count, FieldLocation::PerTick { segment_index: seg_idx }),
    );

    // Set up static arena.
    let mut static_arena = StaticArena::new(&[(FieldId(1), cell_count)], 0.0f32);
    assert!(static_arena.write_field(FieldId(1), 0, &[100.0]));
    let (s_off, s_len) = static_arena.field_location(FieldId(1)).unwrap();
    desc.update_handle(
        FieldId(1),
        FieldHandle::new(0, s_off, s_len, FieldLocation::Static { offset: s_off, len: s_len }),
    );

    let sparse = SegmentList::new(4096, 4, 0.0f32);

    (per_tick, sparse, static_arena, desc)
}

#[test]
fn read_per_tick_field() {
    let (per_tick, sparse, static_arena, desc) = make_test_snapshot();
    let snap = Snapshot::new(
        &per_tick,
        &sparse,
        &static_arena,
        &desc,
        TickId(1),
        WorldGenerationId(1),
        ParameterVersion(0),
    );

    let data = snap.read_field(FieldId(0)).unwrap();
    assert_eq!(data[0], 1.0);
    assert_eq!(data[9], 10.0);
}

#[test]
fn read_static_field() {
    let (per_tick, sparse, static_arena, desc) = make_test_snapshot();
    let snap = Snapshot::new(
        &per_tick,
        &sparse,
        &static_arena,
        &desc,
        TickId(1),
        WorldGenerationId(1),
        ParameterVersion(0),
    );

    let data = snap.read_field(FieldId(1)).unwrap();
    assert_eq!(data[0], 100.0);
}

#[test]
fn snapshot_metadata() {
    let (per_tick, sparse, static_arena, desc) = make_test_snapshot();
    let snap = Snapshot::new(
        &per_tick,
        &sparse,
        &static_arena,
        &desc,
        TickId(42),
        WorldGenerationId(7),
        ParameterVersion(3),
    );

    assert_eq!(snap.tick_id(), TickId(42));
    assert_eq!(snap.world_generation_id(), WorldGenerationId(7));
    assert_eq!(snap.parameter_version(), ParameterVersion(3));
}

#[test]
fn read_unknown_field_returns_none() {
    let (per_tick, sparse, static_arena, desc) = make_test_snapshot();
    let snap = Snapshot::new(
        &per_tick,
        &sparse,
        &static_arena,
        &desc,
        TickId(1),
        WorldGenerationId(1),
        ParameterVersion(0),
    );

    assert!(snap.read_field(FieldId(99)).is_none());
}

fn make_owned_snapshot() -> OwnedSnapshot<f32> {
    let (per_tick, sparse, static_arena, desc) = make_test_snapshot();
    let shared_static = Arc::new(static_arena);
    OwnedSnapshot::new(
        per_tick,
        sparse,
        shared_static,
        desc,
        TickId(1),
        WorldGenerationId(1),
        ParameterVersion(0),
    )
}

#[test]
fn test_owned_snapshot_reads_per_tick() {
    let snap = make_owned_snapshot();
    let data = snap.read_field(FieldId(0)).unwrap();
    assert_eq!(data[0], 1.0);
    assert_eq!(data[9], 10.0);
}

#[test]
fn test_owned_snapshot_reads_static() {
    let snap = make_owned_snapshot();
    let data = snap.read_field(FieldId(1)).unwrap();
    assert_eq!(data[0], 100.0);
}

#[test]
fn test_owned_snapshot_metadata() {
    let (per_tick, sparse, static_arena, desc) = make_test_snapshot();
    let shared_static = Arc::new(static_arena);
    let snap = OwnedSnapshot::new(
        per_tick,
        sparse,
        shared_static,
        desc,
        TickId(42),
        WorldGenerationId(7),
        ParameterVersion(3),
    );
    assert_eq!(snap.tick_id(), TickId(42));
    assert_eq!(snap.world_generation_id(), WorldGenerationId(7));
    assert_eq!(snap.parameter_version(), ParameterVersion(3));
}

#[test]
fn test_owned_snapshot_unknown_field_none() {
    let snap = make_owned_snapshot();
    assert!(snap.read_field(FieldId(99)).is_none());
}

#[test]
fn test_owned_snapshot_independent_of_source() {
    let (mut per_tick, sparse, static_arena, desc) = make_test_snapshot();
    let shared_static = Arc::new(static_arena);
    let snap = OwnedSnapshot::new(
        per_tick.clone(),
        sparse,
        shared_static,
        desc,
        TickId(1),
        WorldGenerationId(1),
        ParameterVersion(0),
    );
    // Mutating the source pool does not affect the owned snapshot.
    per_tick.write(0, 0, &[999.0]);
    assert_eq!(snap.read_field(FieldId(0)).unwrap()[0], 1.0);
}

// Writes to the staging generation.

#[test]
fn write_per_tick_returns_mutable_slice() {
    let mut arena = make_arena();
    arena.begin_tick().unwrap();
    assert_eq!(arena.read_staged(FieldId(0)).unwrap().len(), 100);
    assert!(arena.write_field(FieldId(0), 0, &[42.0]));
    assert_eq!(arena.read_staged(FieldId(0)).unwrap()[0], 42.0);
}

#[test]
fn write_static_returns_none() {
    let mut arena = make_arena();
    arena.begin_tick().unwrap();
    assert!(!arena.write_field(FieldId(2), 0, &[1.0]));
}

#[test]
fn write_sparse_allocates_new_copy() {
    let mut arena = make_arena();
    arena.begin_tick().unwrap();
    assert!(arena.write_field(FieldId(3), 0, &[99.0]));
    assert_eq!(arena.read_staged(FieldId(3)).unwrap().len(), 100);
    assert_eq!(arena.read_staged(FieldId(3)).unwrap()[0], 99.0);
    // The published generation still reads the old copy.
    assert_eq!(arena.snapshot().read_field(FieldId(3)).unwrap()[0], 0.0);
}

#[test]
fn write_unknown_field_returns_none() {
    let mut arena = make_arena();
    arena.begin_tick().unwrap();
    assert!(!arena.write_field(FieldId(99), 0, &[1.0]));
}

#[test]
fn read_per_tick_returns_data() {
    let mut arena = make_arena();
    arena.begin_tick().unwrap();
    assert!(arena.write_field(FieldId(0), 0, &[7.0]));
    assert_eq!(arena.read_staged(FieldId(0)).unwrap()[0], 7.0);
}

#[test]
fn write_past_field_end_is_refused() {
    let mut arena = make_arena();
    arena.begin_tick().unwrap();
    assert!(!arena.write_field(FieldId(0), 99, &[1.0, 2.0]));
    assert!(arena.write_field(FieldId(0), 98, &[1.0, 2.0]));
}


#[test]
fn writes_to_one_field_leave_the_others_alone() {
    let mut arena = make_arena();
    arena.begin_tick().unwrap();
    assert!(arena.write_field(FieldId(0), 0, &[1.0; 100]));
    assert!(arena.write_field(FieldId(3), 0, &[2.0; 100]));
    assert!(arena.write_field(FieldId(1), 0, &[3.0; 300]));
    assert!(arena.write_field(FieldId(3), 50, &[4.0; 10]));
    assert!(arena.read_staged(FieldId(0)).unwrap().iter().all(|&v| v == 1.0));
    assert!(arena.read_staged(FieldId(1)).unwrap().iter().all(|&v| v == 3.0));
    let resources = arena.read_staged(FieldId(3)).unwrap();
    assert!(resources[..50].iter().all(|&v| v == 2.0));
    assert!(resources[50..60].iter().all(|&v| v == 4.0));
    assert!(resources[60..].iter().all(|&v| v == 2.0));
    // Nothing is published until `publish`.
    let snap = arena.snapshot();
    assert!(snap.read_field(FieldId(0)).unwrap().iter().all(|&v| v == 0.0));
    assert!(snap.read_field(FieldId(3)).unwrap().iter().all(|&v| v == 0.0));
}

#[test]
fn begin_tick_stages_zeroed_per_tick_fields() {
    let mut arena = make_arena();
    for tick in 1..=3u64 {
        arena.begin_tick().unwrap();
        // The staging pool held data two ticks ago; a new tick starts from zero.
        assert!(arena.read_staged(FieldId(0)).unwrap().iter().all(|&v| v == 0.0));
        assert!(arena.write_field(FieldId(0), 0, &[tick as f32; 100]));
        arena.publish(TickId(tick), ParameterVersion(0)).unwrap();
    }
    let snap = arena.snapshot();
    assert!(snap.read_field(FieldId(0)).unwrap().iter().all(|&v| v == 3.0));
}

#[test]
fn published_snapshot_reads_back_a_partial_write() {
    let mut arena = make_arena();
    arena.begin_tick().unwrap();
    assert!(arena.write_field(FieldId(3), 0, &[5.0; 100]));
    arena.publish(TickId(1), ParameterVersion(0)).unwrap();
    arena.begin_tick().unwrap();
    assert!(arena.write_field(FieldId(3), 10, &[7.0, 8.0]));
    arena.publish(TickId(2), ParameterVersion(0)).unwrap();
    let snap = arena.snapshot();
    let data = snap.read_field(FieldId(3)).unwrap();
    assert_eq!(data.len(), 100);
    assert_eq!(&data[10..12], &[7.0, 8.0]);
    assert!(data[..10].iter().all(|&v| v == 5.0));
    assert!(data[12..].iter().all(|&v| v == 5.0));
}

#[test]
fn first_sparse_write_copies_and_succeeds() {
    let mut arena = make_arena();
    arena.begin_tick().unwrap();
    assert!(arena.write_field(FieldId(3), 0, &[1.0; 100]));
    arena.publish(TickId(1), ParameterVersion(0)).unwrap();
    arena.begin_tick().unwrap();
    // First write of the sparse field this tick: copy-on-write.
    assert!(arena.write_field(FieldId(3), 5, &[9.0]));
    let staged = arena.read_staged(FieldId(3)).unwrap();
    assert_eq!(staged[5], 9.0);
    assert_eq!(staged[4], 1.0);
    // The published generation still reads the old data.
    assert_eq!(arena.snapshot().read_field(FieldId(3)).unwrap()[5], 1.0);
}

#[test]
fn set_field_commands_write_at_their_rank() {
    let mut arena = make_arena();
    arena.begin_tick().unwrap();
    assert!(apply_set_field(&mut arena, FieldId(0), Some(7), 3.5));
    assert_eq!(arena.read_staged(FieldId(0)).unwrap()[7], 3.5);
    // No rank, a rank past the field, a static field: nothing is written.
    assert!(!apply_set_field(&mut arena, FieldId(0), None, 1.0));
    assert!(!apply_set_field(&mut arena, FieldId(0), Some(100), 1.0));
    assert!(!apply_set_field(&mut arena, FieldId(2), Some(0), 1.0));
    assert!(arena.read_staged(FieldId(0)).unwrap()[..7].iter().all(|&v| v == 0.0));
}

#[test]
fn incremental_fields_are_seeded_from_the_previous_generation() {
    let mut arena = make_arena();
    arena.begin_tick().unwrap();
    let prev: Vec<f32> = (0..150).map(|i| i as f32).collect();
    assert!(seed_incremental(&mut arena, FieldId(0), &prev));
    let staged = arena.read_staged(FieldId(0)).unwrap();
    assert_eq!(staged.len(), 100);
    assert_eq!(staged[99], 99.0);
    assert!(seed_incremental(&mut arena, FieldId(3), &[2.0, 3.0]));
    let sparse = arena.read_staged(FieldId(3)).unwrap();
    assert_eq!(&sparse[..3], &[2.0, 3.0, 0.0]);
    assert!(!seed_incremental(&mut arena, FieldId(2), &prev));
}
