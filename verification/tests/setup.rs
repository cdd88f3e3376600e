use murk::command::PayloadKind;
use murk::engine::setup::{number_fields, static_field_sizes};
use murk::field::{BoundaryBehavior, FieldDef, FieldMutability, FieldType};
use murk::id::FieldId;

fn def(name: &str, field_type: FieldType, mutability: FieldMutability) -> FieldDef {
    FieldDef {
        name: name.into(),
        field_type,
        mutability,
        units: None,
        boundary_behavior: BoundaryBehavior::Clamp,
    }
}

#[test]
fn fields_are_numbered_in_order() {
    let defs = number_fields(vec![
        def("energy", FieldType::Scalar, FieldMutability::PerTick),
        def("terrain", FieldType::Scalar, FieldMutability::Static),
        def("wind", FieldType::Vector { dims: 2 }, FieldMutability::Static),
    ]);
    assert_eq!(defs.len(), 3);
    assert_eq!(defs[0].0, FieldId(0));
    assert_eq!(defs[0].1.name, "energy");
    assert_eq!(defs[1].0, FieldId(1));
    assert_eq!(defs[1].1.name, "terrain");
    assert_eq!(defs[2].0, FieldId(2));
    assert_eq!(defs[2].1.name, "wind");
}

#[test]
fn static_fields_are_listed_with_their_lengths() {
    let defs = number_fields(vec![
        def("energy", FieldType::Scalar, FieldMutability::PerTick),
        def("terrain", FieldType::Scalar, FieldMutability::Static),
        def("resources", FieldType::Scalar, FieldMutability::Sparse),
        def("wind", FieldType::Vector { dims: 2 }, FieldMutability::Static),
    ]);
    let sizes = static_field_sizes(&defs, 100);
    assert_eq!(sizes, vec![(FieldId(1), 100), (FieldId(3), 200)]);
}

#[test]
fn only_field_writes_are_supported() {
    assert!(PayloadKind::SetField.is_supported());
    for kind in [
        PayloadKind::Move,
        PayloadKind::Spawn,
        PayloadKind::Despawn,
        PayloadKind::Custom,
        PayloadKind::SetParameter,
        PayloadKind::SetParameterBatch,
    ] {
        assert!(!kind.is_supported());
    }
}
