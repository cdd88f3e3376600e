use murk::entities::overlay::EntityOverlayReader;
use murk::entities::record::EntityRecord;
use murk::entities::staging::PropertyStaging;
use murk::entities::store::EntityStore;
use murk::entity::EntityManifest;
use murk::error::{EntityManifestError, IngressError};
use murk::id::{EntityId, PropertyIndex};

/// Entity property values are stored as `f32` bit patterns.
fn b(v: f32) -> u32 {
    v.to_bits()
}

fn test_manifest() -> EntityManifest<u32> {
    EntityManifest {
        property_names: vec!["alive".into(), "hp".into(), "x".into(), "y".into()],
        property_defaults: vec![b(1.0), b(100.0), b(0.0), b(0.0)],
        alive_property: PropertyIndex(0),
    }
}

fn two_prop_manifest() -> EntityManifest<u32> {
    EntityManifest {
        property_names: vec!["alive".into(), "hp".into()],
        property_defaults: vec![b(1.0), b(100.0)],
        alive_property: PropertyIndex(0),
    }
}

fn integration_manifest() -> EntityManifest<u32> {
    EntityManifest {
        property_names: vec!["alive".into(), "hp".into(), "speed".into()],
        property_defaults: vec![b(1.0), b(100.0), b(1.0)],
        alive_property: PropertyIndex(0),
    }
}

fn test_store() -> EntityStore {
    EntityStore::new(8, test_manifest())
}

fn coord(values: &[i32]) -> Vec<i32> {
    values.to_vec()
}

// ── store ────────────────────────────────────────────────────────

#[test]
fn spawn_returns_unique_ids_and_properties() {
    let mut store = test_store();
    let id0 = store.spawn(vec![0, 0], 2, &[(PropertyIndex(1), b(50.0))]).unwrap();
    let id1 = store.spawn(vec![1, 0], 3, &[]).unwrap();

    assert_ne!(id0, id1);
    assert_eq!(id0.slot(), 0);
    assert_eq!(id1.slot(), 1);
    assert_eq!(store.get(id0).unwrap().entity_type, 2);
    assert_eq!(store.property(id0, PropertyIndex(0)), Some(b(1.0)));
    assert_eq!(store.property(id0, PropertyIndex(1)), Some(b(50.0)));
    assert_eq!(store.alive_count(), 2);
}

#[test]
fn spawn_at_capacity_returns_error() {
    let mut store = EntityStore::new(2, test_manifest());
    store.spawn(vec![0], 0, &[]).unwrap();
    store.spawn(vec![1], 0, &[]).unwrap();

    assert_eq!(store.spawn(vec![2], 0, &[]), Err(IngressError::EntityCapacityFull));
}

#[test]
fn despawn_recycles_slot_with_incremented_generation() {
    let mut store = test_store();
    let id0 = store.spawn(vec![0], 0, &[]).unwrap();

    store.despawn(id0).unwrap();
    let id1 = store.spawn(vec![1], 0, &[]).unwrap();

    assert_eq!(id1.slot(), id0.slot());
    assert_eq!(id1.generation(), id0.generation() + 1);
    assert_eq!(store.get(id0), None);
}

#[test]
fn generation_wrap_retires_slot_instead_of_recycling() {
    // Despawning a slot 4096 times wraps its generation to 0, retiring it.
    let mut store = EntityStore::new(2, test_manifest());
    let first = store.spawn(vec![0], 0, &[]).unwrap();
    let mut id = first;
    for _ in 0..0xFFF {
        store.despawn(id).unwrap();
        id = store.spawn(vec![1], 0, &[]).unwrap();
        assert_eq!(id.slot(), first.slot());
    }
    assert_eq!(id.generation(), 0xFFF);

    store.despawn(id).unwrap();
    let id2 = store.spawn(vec![2], 0, &[]).unwrap();
    assert_ne!(id2.slot(), first.slot());
    assert_eq!(store.get(EntityId::new(first.slot(), 0)), None);
}

#[test]
fn stale_id_returns_unknown_entity() {
    let mut store = test_store();
    let old_id = store.spawn(vec![0], 0, &[]).unwrap();
    store.despawn(old_id).unwrap();
    let _new_id = store.spawn(vec![1], 0, &[]).unwrap();

    assert_eq!(store.despawn(old_id), Err(IngressError::UnknownEntity));
    assert_eq!(store.move_entity(old_id, vec![2]), Err(IngressError::UnknownEntity));
    assert_eq!(store.property(old_id, PropertyIndex(0)), None);
}

#[test]
fn move_updates_coord_index() {
    let mut store = test_store();
    let id = store.spawn(vec![0, 0], 0, &[]).unwrap();

    assert_eq!(store.at_coord(&vec![0, 0]), &[id]);
    store.move_entity(id, vec![5, 5]).unwrap();

    assert!(store.at_coord(&vec![0, 0]).is_empty());
    assert_eq!(store.at_coord(&vec![5, 5]), &[id]);
    assert_eq!(store.get(id).unwrap().coord.as_slice(), &[5, 5]);
}

#[test]
fn snapshot_and_restore_rollback() {
    let mut store = test_store();
    let id = store.spawn(vec![0], 0, &[]).unwrap();
    let snap = store.snapshot_for_rollback();

    store.spawn(vec![1], 1, &[]).unwrap();
    store.despawn(id).unwrap();
    assert_eq!(store.alive_count(), 1);

    store.restore_from_snapshot(snap);
    assert_eq!(store.alive_count(), 1);
    assert!(store.get(id).is_some());
    assert_eq!(store.at_coord(&vec![0]), &[id]);
}

#[test]
fn spawn_despawn_sequence_tracks_alive_count() {
    // A fixed sequence of spawns (true) and despawns (false).
    let capacity = 16_usize;
    let ops = [
        true, true, false, true, true, true, false, false, true, false, true, true, true, true,
        true, true, true, true, true, true, true, true, true, true, false, false, false, true,
    ];
    let mut store = EntityStore::new(capacity as u32, test_manifest());
    let mut live: Vec<EntityId> = Vec::new();

    for op in ops {
        if op && live.len() < capacity {
            let slot_hint = live.len() as i32;
            let id = store.spawn(vec![slot_hint], 0, &[(PropertyIndex(1), b(25.0))]).unwrap();
            live.push(id);
        } else if !op {
            if let Some(id) = live.pop() {
                store.despawn(id).unwrap();
                assert_eq!(store.get(id), None);
            }
        } else {
            assert_eq!(
                store.spawn(vec![capacity as i32], 0, &[]),
                Err(IngressError::EntityCapacityFull)
            );
        }

        assert_eq!(store.alive_count(), live.len());
        for id in &live {
            assert!(store.get(*id).is_some());
            assert_eq!(store.property(*id, PropertyIndex(1)), Some(b(25.0)));
        }
    }
}

#[test]
fn spawn_with_bad_override_is_not_applied() {
    let mut store = test_store();
    let result = store.spawn(vec![0], 0, &[(PropertyIndex(1), b(5.0)), (PropertyIndex(9), b(1.0))]);
    assert_eq!(result, Err(IngressError::NotApplied));
    assert_eq!(store.alive_count(), 0);
    assert!(store.at_coord(&vec![0]).is_empty());
    // The slot taken stays unused: the next spawn gets the next one.
    let id = store.spawn(vec![0], 0, &[]).unwrap();
    assert_eq!(id.slot(), 1);
}

#[test]
fn set_property_errors() {
    let mut store = test_store();
    let id = store.spawn(vec![0], 0, &[]).unwrap();
    assert_eq!(store.set_property(id, PropertyIndex(9), b(1.0)), Err(IngressError::NotApplied));
    assert_eq!(
        store.set_property(EntityId::new(5, 0), PropertyIndex(1), b(1.0)),
        Err(IngressError::UnknownEntity)
    );
    assert_eq!(store.set_property(id, PropertyIndex(1), b(7.5)), Ok(()));
    assert_eq!(store.property(id, PropertyIndex(1)), Some(b(7.5)));
}

#[test]
fn alive_property_decides_liveness() {
    let mut store = test_store();
    let id = store.spawn(vec![0], 0, &[]).unwrap();
    assert!(store.is_alive_at_slot(id.slot()));
    store.set_property(id, PropertyIndex(0), b(0.0)).unwrap();
    assert!(!store.is_alive_at_slot(id.slot()));
    store.set_property(id, PropertyIndex(0), b(-1.0)).unwrap();
    assert!(!store.is_alive_at_slot(id.slot()));
    store.set_property(id, PropertyIndex(0), b(f32::NAN)).unwrap();
    assert!(!store.is_alive_at_slot(id.slot()));
    store.set_property(id, PropertyIndex(0), b(f32::INFINITY)).unwrap();
    assert!(store.is_alive_at_slot(id.slot()));
    store.set_property(id, PropertyIndex(0), b(1e-40)).unwrap();
    assert!(store.is_alive_at_slot(id.slot()));
    assert_eq!(store.iter_all().len(), 1);
    assert!(!store.is_alive_at_slot(99));
}

#[test]
fn coordinate_lists_keep_arrival_order() {
    let mut store = test_store();
    let a = store.spawn(vec![1], 0, &[]).unwrap();
    let c = store.spawn(vec![2], 0, &[]).unwrap();
    let b_ = store.spawn(vec![1], 0, &[]).unwrap();
    store.move_entity(c, vec![1]).unwrap();
    assert_eq!(store.at_coord(&vec![1]), &[a, b_, c]);
    store.despawn(b_).unwrap();
    assert_eq!(store.at_coord(&vec![1]), &[a, c]);
    assert_eq!(store.capacity(), 8);
    assert_eq!(store.manifest().property_defaults.len(), 4);
}

#[test]
fn record_stores_identity_coordinate_and_type() {
    let record = EntityRecord { id: EntityId::new(3, 1), coord: vec![4, 5], entity_type: 7 };

    assert_eq!(record.id.slot(), 3);
    assert_eq!(record.id.generation(), 1);
    assert_eq!(record.coord.as_slice(), &[4, 5]);
    assert_eq!(record.entity_type, 7);
}

// ── manifest ─────────────────────────────────────────────────────

#[test]
fn property_count_matches_defaults() {
    let manifest = EntityManifest {
        property_names: vec!["alive".into(), "hp".into()],
        property_defaults: vec![1.0f32, 100.0],
        alive_property: PropertyIndex(0),
    };

    assert_eq!(manifest.property_count(), 2);
    assert_eq!(manifest.validate(), Ok(()));
}

#[test]
fn validate_rejects_length_mismatch() {
    let manifest = EntityManifest {
        property_names: vec!["alive".into()],
        property_defaults: vec![1.0f32, 100.0],
        alive_property: PropertyIndex(0),
    };

    assert!(manifest.validate().is_err());
}

#[test]
fn validate_rejects_alive_property_out_of_range() {
    let manifest = EntityManifest {
        property_names: vec!["alive".into()],
        property_defaults: vec![1.0f32],
        alive_property: PropertyIndex(2),
    };

    assert!(manifest.validate().is_err());
}

#[test]
fn validate_reports_each_error() {
    let mismatch = EntityManifest {
        property_names: vec!["alive".into()],
        property_defaults: vec![1.0f32, 100.0],
        alive_property: PropertyIndex(0),
    };
    assert_eq!(
        mismatch.validate(),
        Err(EntityManifestError::PropertyLengthMismatch { names: 1, defaults: 2 })
    );
    let empty: EntityManifest<f32> = EntityManifest {
        property_names: vec![],
        property_defaults: vec![],
        alive_property: PropertyIndex(0),
    };
    assert_eq!(empty.validate(), Err(EntityManifestError::EmptyProperties));
    let out = EntityManifest {
        property_names: vec!["alive".into()],
        property_defaults: vec![1.0f32],
        alive_property: PropertyIndex(2),
    };
    assert_eq!(
        out.validate(),
        Err(EntityManifestError::AlivePropertyOutOfRange {
            alive_property: PropertyIndex(2),
            property_count: 1
        })
    );
}

// ── snapshot ─────────────────────────────────────────────────────

#[test]
fn snapshot_get_returns_record() {
    let mut store = EntityStore::new(4, two_prop_manifest());
    let id = store.spawn(vec![5, 10], 2, &[]).unwrap();
    let snap = store.snapshot();

    let record = snap.get(id).unwrap();
    assert_eq!(record.coord.as_slice(), &[5, 10]);
    assert_eq!(record.entity_type, 2);
}

#[test]
fn snapshot_stale_id_returns_none() {
    let mut store = EntityStore::new(4, two_prop_manifest());
    let old = store.spawn(vec![0], 0, &[]).unwrap();
    store.despawn(old).unwrap();
    let _new = store.spawn(vec![1], 0, &[]).unwrap();

    let snap = store.snapshot();
    assert!(snap.get(old).is_none());
}

#[test]
fn snapshot_iter_alive_skips_dead_property_values() {
    let mut store = EntityStore::new(4, two_prop_manifest());
    let id0 = store.spawn(vec![0], 0, &[]).unwrap();
    let _id1 = store.spawn(vec![1], 0, &[]).unwrap();
    store.set_property(id0, PropertyIndex(0), b(0.0)).unwrap();

    let snap = store.snapshot();
    assert_eq!(snap.alive_count(), 1);
    assert_eq!(snap.iter_alive().len(), 1);
    assert_eq!(snap.iter_all().len(), 2);
}

#[test]
fn snapshot_property_validates_generation() {
    let mut store = EntityStore::new(4, two_prop_manifest());
    let old = store.spawn(vec![0], 0, &[]).unwrap();
    store.despawn(old).unwrap();
    let _new = store.spawn(vec![1], 0, &[]).unwrap();

    let snap = store.snapshot();
    assert_eq!(snap.property(old, PropertyIndex(1)), None);
}

#[test]
fn snapshot_property_out_of_range_returns_none() {
    let mut store = EntityStore::new(4, two_prop_manifest());
    let id = store.spawn(vec![0], 0, &[]).unwrap();
    let snap = store.snapshot();

    assert_eq!(snap.property(id, PropertyIndex(99)), None);
}

#[test]
fn snapshot_exposes_slabs() {
    let mut store = EntityStore::new(2, two_prop_manifest());
    let id = store.spawn(vec![0], 0, &[]).unwrap();
    let snap = store.snapshot();
    assert_eq!(snap.property_count(), 2);
    assert_eq!(snap.generations(), &[0, 0]);
    assert_eq!(snap.properties()[..2], [b(1.0), b(100.0)]);
    assert!(snap.is_alive(id));
    assert_eq!(snap.manifest().alive_property, PropertyIndex(0));
}

// ── staging ──────────────────────────────────────────────────────

#[test]
fn set_and_get_round_trip() {
    let mut staging = PropertyStaging::new(4, 3);
    let id = EntityId::new(1, 0);

    assert!(staging.set(id, PropertyIndex(2), b(42.0)));
    assert_eq!(staging.get(id, PropertyIndex(2)), Some(b(42.0)));
}

#[test]
fn get_unwritten_returns_none() {
    let staging = PropertyStaging::new(4, 3);

    assert_eq!(staging.get(EntityId::new(0, 0), PropertyIndex(0)), None);
}

#[test]
fn set_out_of_bounds_returns_false() {
    let mut staging = PropertyStaging::new(4, 3);

    assert!(!staging.set(EntityId::new(10, 0), PropertyIndex(0), b(1.0)));
    assert!(!staging.set(EntityId::new(0, 0), PropertyIndex(10), b(1.0)));
}

#[test]
fn reset_clears_all_writes() {
    let mut staging = PropertyStaging::new(4, 3);
    assert!(staging.set(EntityId::new(0, 0), PropertyIndex(0), b(1.0)));
    assert!(staging.set(EntityId::new(1, 0), PropertyIndex(1), b(2.0)));

    staging.reset();

    assert_eq!(staging.get(EntityId::new(0, 0), PropertyIndex(0)), None);
    assert_eq!(staging.get(EntityId::new(1, 0), PropertyIndex(1)), None);
}

#[test]
fn apply_to_writes_staged_values() {
    let mut staging = PropertyStaging::new(2, 3);
    assert!(staging.set(EntityId::new(0, 0), PropertyIndex(1), b(99.0)));
    assert!(staging.set(EntityId::new(1, 0), PropertyIndex(2), b(77.0)));

    let mut properties = vec![b(0.0); 6];
    staging.apply_to(&mut properties);

    assert_eq!(properties[1], b(99.0));
    assert_eq!(properties[5], b(77.0));
    assert_eq!(properties[0], b(0.0));
}

#[test]
fn bitset_handles_more_than_64_entries() {
    let mut staging = PropertyStaging::new(10, 8);

    assert!(staging.set(EntityId::new(8, 0), PropertyIndex(6), b(3.14)));
    assert_eq!(staging.get(EntityId::new(8, 0), PropertyIndex(6)), Some(b(3.14)));
    assert_eq!(staging.max_entities(), 10);
    assert_eq!(staging.property_count(), 8);
}

// ── overlay ──────────────────────────────────────────────────────

#[test]
fn overlay_returns_staged_value_over_snapshot() {
    let mut store = EntityStore::new(4, two_prop_manifest());
    let id = store.spawn(vec![0], 0, &[]).unwrap();
    let snapshot = store.snapshot();

    let mut staging = PropertyStaging::new(4, 2);
    assert!(staging.set(id, PropertyIndex(1), b(50.0)));

    let overlay = EntityOverlayReader::new(snapshot, &staging);
    assert_eq!(overlay.property(id, PropertyIndex(1)), Some(b(50.0)));
    assert_eq!(overlay.property(id, PropertyIndex(0)), Some(b(1.0)));
}

#[test]
fn overlay_falls_through_to_snapshot_when_not_staged() {
    let mut store = EntityStore::new(4, two_prop_manifest());
    let id = store.spawn(vec![0], 0, &[]).unwrap();
    let snapshot = store.snapshot();
    let staging = PropertyStaging::new(4, 2);

    let overlay = EntityOverlayReader::new(snapshot, &staging);
    assert_eq!(overlay.property(id, PropertyIndex(1)), Some(b(100.0)));
}

#[test]
fn overlay_get_delegates_to_snapshot() {
    let mut store = EntityStore::new(4, two_prop_manifest());
    let id = store.spawn(vec![3, 7], 1, &[]).unwrap();
    let snapshot = store.snapshot();
    let staging = PropertyStaging::new(4, 2);

    let overlay = EntityOverlayReader::new(snapshot, &staging);
    let record = overlay.get(id).unwrap();
    assert_eq!(record.coord.as_slice(), &[3, 7]);
    assert_eq!(record.entity_type, 1);
}

#[test]
fn overlay_stale_id_returns_none() {
    let mut store = EntityStore::new(4, two_prop_manifest());
    let old = store.spawn(vec![0], 0, &[]).unwrap();
    store.despawn(old).unwrap();
    let _new = store.spawn(vec![1], 0, &[]).unwrap();
    let snapshot = store.snapshot();
    let staging = PropertyStaging::new(4, 2);

    let overlay = EntityOverlayReader::new(snapshot, &staging);
    assert!(overlay.get(old).is_none());
    assert_eq!(overlay.property(old, PropertyIndex(0)), None);
}

#[test]
fn overlay_stale_id_does_not_read_staged_value_for_recycled_slot() {
    let mut store = EntityStore::new(4, two_prop_manifest());
    let old = store.spawn(vec![0], 0, &[]).unwrap();
    store.despawn(old).unwrap();
    let new_id = store.spawn(vec![1], 0, &[]).unwrap();
    assert_eq!(old.slot(), new_id.slot());

    let snapshot = store.snapshot();
    let mut staging = PropertyStaging::new(4, 2);
    assert!(staging.set(new_id, PropertyIndex(1), b(999.0)));

    let overlay = EntityOverlayReader::new(snapshot, &staging);
    assert_eq!(overlay.property(old, PropertyIndex(1)), None);
    assert_eq!(overlay.property(new_id, PropertyIndex(1)), Some(b(999.0)));
}

// ── pipeline ─────────────────────────────────────────────────────

#[test]
fn full_pipeline_stages_and_commits_properties() {
    let mut store = EntityStore::new(4, integration_manifest());
    let id = store.spawn(coord(&[0, 0]), 7, &[]).unwrap();
    let mut staging = PropertyStaging::new(store.capacity(), store.manifest().property_count() as u32);

    {
        let snapshot = store.snapshot();
        let overlay = EntityOverlayReader::new(snapshot, &staging);
        assert_eq!(overlay.property(id, PropertyIndex(1)), Some(b(100.0)));
    }

    assert!(staging.set(id, PropertyIndex(1), b(25.0)));

    {
        let snapshot = store.snapshot();
        assert_eq!(snapshot.property(id, PropertyIndex(1)), Some(b(100.0)));
        let overlay = EntityOverlayReader::new(snapshot, &staging);
        assert_eq!(overlay.property(id, PropertyIndex(1)), Some(b(25.0)));
    }

    store.apply_staged_properties(&staging);
    staging.reset();

    let snapshot = store.snapshot();
    let overlay = EntityOverlayReader::new(snapshot, &staging);
    assert_eq!(overlay.property(id, PropertyIndex(1)), Some(b(25.0)));
    assert_eq!(staging.get(id, PropertyIndex(1)), None);
}

#[test]
fn rollback_restores_coord_index_and_entity_state() {
    let mut store = EntityStore::new(4, integration_manifest());
    let id0 = store.spawn(coord(&[0, 0]), 0, &[]).unwrap();
    let id1 = store.spawn(coord(&[1, 0]), 0, &[]).unwrap();
    let rollback = store.snapshot_for_rollback();

    store.move_entity(id0, coord(&[2, 0])).unwrap();
    store.despawn(id1).unwrap();
    let id2 = store.spawn(coord(&[3, 0]), 0, &[]).unwrap();

    assert_eq!(store.at_coord(&coord(&[2, 0])), &[id0]);
    assert!(store.at_coord(&coord(&[1, 0])).is_empty());
    assert_eq!(store.alive_count(), 2);

    store.restore_from_snapshot(rollback);

    assert_eq!(store.at_coord(&coord(&[0, 0])), &[id0]);
    assert_eq!(store.at_coord(&coord(&[1, 0])), &[id1]);
    assert!(store.at_coord(&coord(&[2, 0])).is_empty());
    assert!(store.at_coord(&coord(&[3, 0])).is_empty());
    assert!(store.get(id2).is_none());
    assert_eq!(store.alive_count(), 2);
}

#[test]
fn overlay_supports_multi_entity_spatial_queries() {
    let mut store = EntityStore::new(6, integration_manifest());
    let id0 = store.spawn(coord(&[4, 1]), 10, &[]).unwrap();
    let id1 = store.spawn(coord(&[4, 1]), 11, &[]).unwrap();
    let id2 = store.spawn(coord(&[5, 1]), 12, &[]).unwrap();
    let mut staging = PropertyStaging::new(store.capacity(), store.manifest().property_count() as u32);
    assert!(staging.set(id1, PropertyIndex(1), b(60.0)));

    let snapshot = store.snapshot();
    let overlay = EntityOverlayReader::new(snapshot, &staging);
    let colocated: Vec<EntityId> = overlay
        .iter_alive()
        .into_iter()
        .filter(|record| record.coord.as_slice() == [4, 1])
        .map(|record| record.id)
        .collect();

    assert_eq!(colocated, vec![id0, id1]);
    assert_eq!(overlay.get(id2).unwrap().coord.as_slice(), &[5, 1]);
    assert_eq!(overlay.property(id0, PropertyIndex(1)), Some(b(100.0)));
    assert_eq!(overlay.property(id1, PropertyIndex(1)), Some(b(60.0)));
}

#[test]
fn overlay_rejects_stale_id_through_recycled_slot_pipeline() {
    let mut store = EntityStore::new(2, integration_manifest());
    let old = store.spawn(coord(&[0]), 0, &[]).unwrap();
    store.despawn(old).unwrap();
    let new_id = store.spawn(coord(&[1]), 0, &[]).unwrap();
    assert_eq!(old.slot(), new_id.slot());

    let mut staging = PropertyStaging::new(store.capacity(), store.manifest().property_count() as u32);
    assert!(staging.set(new_id, PropertyIndex(1), b(5.0)));

    let snapshot = store.snapshot();
    let overlay = EntityOverlayReader::new(snapshot, &staging);

    assert!(overlay.get(old).is_none());
    assert_eq!(overlay.property(old, PropertyIndex(1)), None);
    assert_eq!(overlay.property(new_id, PropertyIndex(1)), Some(b(5.0)));
    assert!(overlay.is_alive(new_id));
    assert_eq!(overlay.iter_all().len(), 1);
    assert_eq!(overlay.manifest().property_count(), 3);
}

// ── ids ──────────────────────────────────────────────────────────

#[test]
fn new_packs_slot_and_generation() {
    let id = EntityId::new(42, 7);
    assert_eq!(id.slot(), 42);
    assert_eq!(id.generation(), 7);
}

#[test]
fn max_slot_value() {
    let id = EntityId::new(1_048_575, 0);
    assert_eq!(id.slot(), 1_048_575);
    assert_eq!(id.generation(), 0);
}

#[test]
fn max_generation_value() {
    let id = EntityId::new(0, 4095);
    assert_eq!(id.slot(), 0);
    assert_eq!(id.generation(), 4095);
}

#[test]
fn raw_round_trip_preserves_bits() {
    let id = EntityId::new(1, 1);
    let raw = id.as_u32();
    assert_eq!(EntityId::from_u32(raw), id);
    assert_eq!(raw, (1 << 20) | 1);
}

#[test]
fn equality_requires_both_slot_and_generation() {
    assert_ne!(EntityId::new(1, 0), EntityId::new(1, 1));
}

#[test]
fn entity_id_round_trip_over_samples() {
    for slot in [0u32, 1, 2, 1000, 65535, 1_048_574, 1_048_575] {
        for generation in [0u32, 1, 7, 4094, 4095] {
            let id = EntityId::new(slot, generation);
            assert_eq!(id.slot(), slot);
            assert_eq!(id.generation(), generation);
            assert_eq!(EntityId::from_u32(id.as_u32()), id);
        }
    }
}
