use murk::field::FieldType;
use murk::field_set::FieldSet;
use murk::id::FieldId;

fn set(ids: &[u32]) -> FieldSet {
    let ids: Vec<FieldId> = ids.iter().map(|&i| FieldId(i)).collect();
    FieldSet::from_ids(&ids)
}

fn ids(s: &FieldSet) -> Vec<u32> {
    s.to_vec().into_iter().map(|f| f.0).collect()
}

#[test]
fn insert_and_contains() {
    let mut s = FieldSet::empty();
    assert!(s.is_empty());
    s.insert(FieldId(3));
    s.insert(FieldId(200));
    assert!(s.contains(FieldId(3)));
    assert!(s.contains(FieldId(200)));
    assert!(!s.contains(FieldId(4)));
    assert_eq!(s.len(), 2);
    assert!(!s.is_empty());
}

#[test]
fn set_operations() {
    let a = set(&[1, 2, 3, 70]);
    let b = set(&[2, 3, 4, 130]);
    assert_eq!(ids(&a.union(&b)), vec![1, 2, 3, 4, 70, 130]);
    assert_eq!(ids(&a.intersection(&b)), vec![2, 3]);
    assert_eq!(ids(&a.difference(&b)), vec![1, 70]);
    assert!(set(&[2, 3]).is_subset(&a));
    assert!(!a.is_subset(&b));
    assert!(FieldSet::empty().is_subset(&a));
}

#[test]
fn laws_on_examples() {
    let a = set(&[0, 5, 64, 65]);
    let b = set(&[5, 6, 128]);
    let c = set(&[6, 64, 200]);
    assert!(a.union(&b) == b.union(&a));
    assert!(a.intersection(&b) == b.intersection(&a));
    assert!(a.union(&b).union(&c) == a.union(&b.union(&c)));
    assert!(a.intersection(&b).intersection(&c) == a.intersection(&b.intersection(&c)));
    assert!(a.intersection(&b.union(&c)) == a.intersection(&b).union(&a.intersection(&c)));
    assert!(a.union(&FieldSet::empty()) == a);
    assert!(a.union(&a) == a);
    assert!(a.intersection(&a) == a);
    assert!(a.intersection(&FieldSet::empty()).is_empty());
    assert!(a.difference(&b).intersection(&b).is_empty());
    assert!(a.is_subset(&a));
}

#[test]
fn equality_ignores_trailing_empty_words() {
    let mut a = set(&[1, 300]);
    let b = set(&[1]);
    assert!(a != b);
    a = a.difference(&set(&[300]));
    assert!(a == b);
}

#[test]
fn iterator_walks_in_ascending_order() {
    let s = set(&[130, 2, 64, 7]);
    let mut it = s.iter();
    let mut seen = Vec::new();
    while let Some(f) = it.next() {
        seen.push(f.0);
    }
    assert_eq!(seen, vec![2, 7, 64, 130]);
    assert_eq!(ids(&s), vec![2, 7, 64, 130]);
}

#[test]
fn from_ids_keeps_each_once() {
    let s = set(&[4, 4, 9, 4]);
    assert_eq!(s.len(), 2);
    assert_eq!(ids(&s), vec![4, 9]);
}

#[test]
fn field_type_components() {
    assert_eq!(FieldType::Scalar.components(), 1);
    assert_eq!(FieldType::Vector { dims: 3 }.components(), 3);
    assert_eq!(FieldType::Categorical { n_values: 5 }.components(), 1);
}
