use etb_save_core::model::{FStr, Properties, Property, PropertyInner, PropertyKey, PropertyTag, TagData};

fn key(index: u32, name: &str) -> PropertyKey {
    PropertyKey(index, FStr::narrow(name))
}

fn int_prop(v: i32) -> Property {
    Property { tag: PropertyTag { id: None, data: TagData::Int }, inner: PropertyInner::Int(v) }
}

fn names(p: &Properties) -> Vec<(u32, FStr)> {
    p.0.iter().map(|(k, _)| (k.0, k.1.clone())).collect()
}

#[test]
fn lookup_by_name_takes_first_inserted() {
    let mut p = Properties::new();
    p.insert(key(0, "Foo"), int_prop(10));
    p.insert(key(1, "Foo"), int_prop(11));
    assert_eq!(p.position_by_name("Foo"), Some(0));
    assert_eq!(p.get_by_name("Foo").unwrap().inner, PropertyInner::Int(10));
    assert_eq!(p.get(&key(1, "Foo")).unwrap().inner, PropertyInner::Int(11));
    assert!(p.get_by_name("Bar").is_none());
    assert!(p.get(&key(2, "Foo")).is_none());
}

#[test]
fn insert_existing_key_replaces_in_place() {
    let mut p = Properties::new();
    p.insert(key(0, "A"), int_prop(1));
    p.insert(key(0, "B"), int_prop(2));
    let old = p.insert(key(0, "A"), int_prop(3));
    assert_eq!(old.unwrap().inner, PropertyInner::Int(1));
    assert_eq!(names(&p), vec![(0, FStr::narrow("A")), (0, FStr::narrow("B"))]);
    assert_eq!(p.get(&key(0, "A")).unwrap().inner, PropertyInner::Int(3));
    assert_eq!(p.len(), 2);
}

#[test]
fn insert_then_remove_keeps_order() {
    let mut p = Properties::new();
    for n in ["A", "B", "C", "D"] {
        p.insert(key(0, n), int_prop(0));
    }
    p.insert(key(0, "E"), int_prop(5));
    let removed = p.shift_remove(&key(0, "B"));
    assert!(removed.is_some());
    assert!(p.shift_remove(&key(0, "B")).is_none());
    assert!(!p.contains_key(&key(0, "B")));
    assert_eq!(
        names(&p),
        vec![
            (0, FStr::narrow("A")),
            (0, FStr::narrow("C")),
            (0, FStr::narrow("D")),
            (0, FStr::narrow("E"))
        ]
    );
    assert_eq!(p.index_of(&key(0, "E")), Some(3));
}
