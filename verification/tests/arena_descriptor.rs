use murk::arena::descriptor::FieldDescriptor;
use murk::arena::handle::{FieldHandle, FieldLocation};
use murk::error::ArenaError;
use murk::field::{BoundaryBehavior, FieldDef, FieldMutability, FieldType};
use murk::id::FieldId;

fn def(name: &str, field_type: FieldType, mutability: FieldMutability) -> FieldDef {
    FieldDef {
        name: name.to_string(),
        field_type,
        mutability,
        units: None,
        boundary_behavior: BoundaryBehavior::Clamp,
    }
}

fn make_field_defs() -> Vec<(FieldId, FieldDef)> {
    vec![
        (FieldId(0), def("temperature", FieldType::Scalar, FieldMutability::PerTick)),
        (FieldId(1), def("velocity", FieldType::Vector { dims: 3 }, FieldMutability::PerTick)),
        (FieldId(2), def("terrain", FieldType::Categorical { n_values: 4 }, FieldMutability::Static)),
        (FieldId(3), def("resources", FieldType::Scalar, FieldMutability::Sparse)),
    ]
}

#[test]
fn from_field_defs_creates_entries() {
    let defs = make_field_defs();
    let desc = FieldDescriptor::from_field_defs(&defs, 100).unwrap();
    assert_eq!(desc.len(), 4);
}

#[test]
fn total_len_is_cell_count_times_components() {
    let defs = make_field_defs();
    let desc = FieldDescriptor::from_field_defs(&defs, 100).unwrap();

    assert_eq!(desc.get(FieldId(0)).unwrap().meta.total_len, 100);
    assert_eq!(desc.get(FieldId(1)).unwrap().meta.total_len, 300);
    assert_eq!(desc.get(FieldId(2)).unwrap().meta.total_len, 100);
}

#[test]
fn update_handle_changes_handle() {
    let defs = make_field_defs();
    let mut desc = FieldDescriptor::from_field_defs(&defs, 100).unwrap();

    let new_handle = FieldHandle::new(5, 1024, 100, FieldLocation::PerTick { segment_index: 2 });
    desc.update_handle(FieldId(0), new_handle);

    let entry = desc.get(FieldId(0)).unwrap();
    assert_eq!(entry.handle.generation(), 5);
    assert_eq!(entry.handle.location(), FieldLocation::PerTick { segment_index: 2 });
}

#[test]
fn fields_by_mutability_filters() {
    let defs = make_field_defs();
    let desc = FieldDescriptor::from_field_defs(&defs, 100).unwrap();

    let per_tick = desc.fields_by_mutability(FieldMutability::PerTick);
    assert_eq!(per_tick.len(), 2);

    let static_fields = desc.fields_by_mutability(FieldMutability::Static);
    assert_eq!(static_fields.len(), 1);

    let sparse = desc.fields_by_mutability(FieldMutability::Sparse);
    assert_eq!(sparse.len(), 1);
}

#[test]
fn descriptor_unknown_field_returns_none() {
    let defs = make_field_defs();
    let desc = FieldDescriptor::from_field_defs(&defs, 100).unwrap();
    assert!(desc.get(FieldId(99)).is_none());
}

#[test]
fn overflow_cell_count_times_components_returns_error() {
    let defs = vec![(FieldId(0), def("huge", FieldType::Vector { dims: u32::MAX }, FieldMutability::PerTick))];
    let result = FieldDescriptor::from_field_defs(&defs, u32::MAX);
    assert!(matches!(result, Err(ArenaError::InvalidConfig { .. })));
}

#[test]
fn fields_by_mutability_reports_ids_and_lengths_in_order() {
    let defs = make_field_defs();
    let desc = FieldDescriptor::from_field_defs(&defs, 10).unwrap();
    assert_eq!(
        desc.fields_by_mutability(FieldMutability::PerTick),
        vec![(FieldId(0), 10), (FieldId(1), 30)]
    );
}

#[test]
fn empty_descriptor() {
    let desc = FieldDescriptor::new();
    assert!(desc.is_empty());
    assert_eq!(desc.len(), 0);
}
