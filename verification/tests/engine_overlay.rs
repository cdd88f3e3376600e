use murk::arena::config::ArenaConfig;
use murk::arena::pingpong::PingPongArena;
use murk::arena::static_arena::StaticArena;
use murk::engine::overlay::{BaseFieldSet, FieldCache, OverlayReader, ReadSource};
use murk::field::{BoundaryBehavior, FieldDef, FieldMutability, FieldType};
use murk::id::{FieldId, ParameterVersion, TickId};

fn base_cache_with(fields: &[(FieldId, Vec<f32>)]) -> FieldCache<f32> {
    let mut cache = FieldCache::new();
    for (id, data) in fields {
        cache.insert(*id, data);
    }
    cache
}

fn staged_cache_with(fields: &[(FieldId, Vec<f32>)]) -> FieldCache<f32> {
    let mut cache = FieldCache::new();
    for (id, data) in fields {
        cache.insert(*id, data);
    }
    cache
}

#[test]
fn base_gen_routing_delegates_to_base_cache() {
    let base = base_cache_with(&[(FieldId(0), vec![1.0, 2.0, 3.0])]);
    let staged = FieldCache::new();
    let routes = vec![(FieldId(0), ReadSource::BaseGen)];

    let reader = OverlayReader::new(&routes, &base, &staged);
    assert_eq!(reader.read(FieldId(0)), Some(&[1.0, 2.0, 3.0][..]));
}

#[test]
fn staged_routing_delegates_to_staged_cache() {
    let base = FieldCache::new();
    let staged = staged_cache_with(&[(FieldId(1), vec![10.0, 20.0])]);
    let routes = vec![(FieldId(1), ReadSource::Staged { writer_index: 0 })];

    let reader = OverlayReader::new(&routes, &base, &staged);
    assert_eq!(reader.read(FieldId(1)), Some(&[10.0, 20.0][..]));
}

#[test]
fn mixed_base_and_staged_routing() {
    let base = base_cache_with(&[(FieldId(0), vec![1.0])]);
    let staged = staged_cache_with(&[(FieldId(1), vec![99.0])]);
    let routes = vec![
        (FieldId(0), ReadSource::BaseGen),
        (FieldId(1), ReadSource::Staged { writer_index: 0 }),
    ];

    let reader = OverlayReader::new(&routes, &base, &staged);
    assert_eq!(reader.read(FieldId(0)), Some(&[1.0][..]));
    assert_eq!(reader.read(FieldId(1)), Some(&[99.0][..]));
}

#[test]
fn overlay_unknown_field_returns_none() {
    let base: FieldCache<f32> = FieldCache::new();
    let staged = FieldCache::new();
    let routes = vec![];

    let reader = OverlayReader::new(&routes, &base, &staged);
    assert_eq!(reader.read(FieldId(42)), None);
}

#[test]
fn staged_cache_clear_and_refill() {
    let mut cache = FieldCache::new();
    cache.insert(FieldId(0), &[1.0f32, 2.0]);
    assert_eq!(cache.read(FieldId(0)), Some(&[1.0, 2.0][..]));

    cache.clear();
    assert_eq!(cache.read(FieldId(0)), None);

    cache.insert(FieldId(0), &[3.0, 4.0]);
    assert_eq!(cache.read(FieldId(0)), Some(&[3.0, 4.0][..]));
}

#[test]
fn base_cache_empty_field_returns_some_empty_slice() {
    let base = base_cache_with(&[(FieldId(5), vec![])]);
    assert_eq!(base.read(FieldId(5)), Some(&[][..]));
}

#[test]
fn staged_cache_empty_field_returns_some_empty_slice() {
    let mut cache: FieldCache<f32> = FieldCache::new();
    cache.insert(FieldId(7), &[]);
    assert_eq!(cache.read(FieldId(7)), Some(&[][..]));
}

#[test]
fn staged_cache_clear_makes_empty_field_stale() {
    let mut cache: FieldCache<f32> = FieldCache::new();
    cache.insert(FieldId(7), &[]);
    assert_eq!(cache.read(FieldId(7)), Some(&[][..]));

    cache.clear();
    assert_eq!(cache.read(FieldId(7)), None);
}

#[test]
fn overlay_routes_empty_base_field() {
    let base = base_cache_with(&[(FieldId(0), vec![])]);
    let staged = FieldCache::new();
    let routes = vec![(FieldId(0), ReadSource::BaseGen)];

    let reader = OverlayReader::new(&routes, &base, &staged);
    assert_eq!(reader.read(FieldId(0)), Some(&[][..]));
}

#[test]
fn overlay_routes_empty_staged_field() {
    let base = FieldCache::new();
    let staged = staged_cache_with(&[(FieldId(1), vec![])]);
    let routes = vec![(FieldId(1), ReadSource::Staged { writer_index: 0 })];

    let reader = OverlayReader::new(&routes, &base, &staged);
    assert_eq!(reader.read(FieldId(1)), Some(&[][..]));
}

#[test]
fn base_field_set_keeps_first_occurrences_in_order() {
    let set = BaseFieldSet::from_reads(
        &[FieldId(3), FieldId(1), FieldId(3)],
        &[FieldId(2), FieldId(1)],
        &[FieldId(5), FieldId(2), FieldId(4)],
    );
    assert_eq!(set.field_ids(), &[FieldId(3), FieldId(1), FieldId(2), FieldId(5), FieldId(4)]);
}

#[test]
fn populate_copies_the_listed_fields_from_the_snapshot() {
    let def = |name: &str| FieldDef {
        name: name.into(),
        field_type: FieldType::Scalar,
        mutability: FieldMutability::PerTick,
        units: None,
        boundary_behavior: BoundaryBehavior::Clamp,
    };
    let defs = vec![(FieldId(0), def("a")), (FieldId(1), def("b"))];
    let static_arena = StaticArena::new(&[], 0.0f32).into_shared();
    let mut arena = PingPongArena::new(ArenaConfig::new(3), defs, static_arena, 0.0).unwrap();
    arena.begin_tick().unwrap();
    assert!(arena.write_field(FieldId(0), 0, &[1.0, 2.0, 3.0]));
    assert!(arena.write_field(FieldId(1), 0, &[4.0, 5.0, 6.0]));
    arena.publish(TickId(1), ParameterVersion(0)).unwrap();

    let mut cache = FieldCache::new();
    cache.insert(FieldId(1), &[9.0]);
    let fields = BaseFieldSet::from_reads(&[FieldId(0), FieldId(7)], &[], &[]);
    cache.populate(&arena.snapshot(), &fields);
    assert_eq!(cache.read(FieldId(0)), Some(&[1.0, 2.0, 3.0][..]));
    // Not listed: its old copy is dropped.
    assert_eq!(cache.read(FieldId(1)), None);
    // Listed but unknown to the snapshot: nothing cached.
    assert_eq!(cache.read(FieldId(7)), None);
}
