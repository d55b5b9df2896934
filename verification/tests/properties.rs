use binding_store::binding::{Binding, SCHEMA_VERSION};
use binding_store::db_common::{CollectionPath, KeyFrom};
use binding_store::doc::{from_doc, to_doc, BindingDoc};
use binding_store::store::{filter_matches, prepare_upsert, MemStore, MongoDBResult};

fn entity(thing: &str, location: &str) -> Binding {
    Binding::new(&thing.to_string(), &location.to_string())
}

#[test]
fn constructor_populates_fields() {
    let b = entity("carpet", "floor");
    assert!(b.id.is_none());
    assert_eq!(b.thing_id, "carpet");
    assert_eq!(b.location, "floor");
    assert_eq!(b.version, SCHEMA_VERSION);
    assert_eq!(b.version, "1.0.0");
}

#[test]
fn filter_constructors_leave_other_fields_empty() {
    let f = Binding::filter_by_thing(&"carpet".to_string());
    assert!(f.id.is_none());
    assert_eq!(f.thing_id, "carpet");
    assert_eq!(f.location, "");
    assert_eq!(f.version, "");

    let g = Binding::filter_by_location(&"floor".to_string());
    assert!(g.id.is_none());
    assert_eq!(g.thing_id, "");
    assert_eq!(g.location, "floor");
    assert_eq!(g.version, "");
}

#[test]
fn wildcard_equality_filter_matches_full_entity() {
    let f = Binding::filter_by_thing(&"carpet".to_string());
    let b = entity("carpet", "floor");
    assert!(f == b);
    assert!(b == f);
}

#[test]
fn wildcard_equality_rejects_different_thing() {
    let f = Binding::filter_by_thing(&"carpet".to_string());
    let b = entity("rug", "floor");
    assert!(f != b);
}

#[test]
fn wildcard_equality_rejects_different_location() {
    let a = entity("carpet", "floor");
    let b = entity("carpet", "sofa");
    assert!(a != b);
}

#[test]
fn wildcard_equality_location_filter() {
    let f = Binding::filter_by_location(&"floor".to_string());
    assert!(f == entity("carpet", "floor"));
    assert!(f != entity("carpet", "sofa"));
}

#[test]
fn wildcard_equality_degenerate_empty_filter_matches_everything() {
    let f = Binding::filter_by_thing(&"".to_string());
    assert!(f == entity("carpet", "floor"));
    assert!(f == entity("rug", "hall"));
}

#[test]
fn key_derivation_extracts_thing_only() {
    let b = entity("carpet", "floor");
    let k = Binding::get_key(&b);
    assert!(k.id.is_none());
    assert_eq!(k.thing_id, "carpet");
    assert_eq!(k.location, "");
    assert_eq!(k.version, "");
}

#[test]
fn key_derivation_idempotent() {
    let b = entity("carpet", "floor");
    let k = Binding::get_key(&b);
    let kk = Binding::get_key(&k);
    assert_eq!(kk.thing_id, k.thing_id);
    assert_eq!(kk.location, k.location);
    assert_eq!(kk.version, k.version);
    assert!(kk.id.is_none() && k.id.is_none());
    assert!(kk == k);
}

#[test]
fn key_from_trait_agrees_with_inherent_get_key() {
    let b = entity("carpet", "floor");
    let k1 = KeyFrom::get_key(&b);
    let k2 = Binding::get_key(&b);
    assert_eq!(k1.thing_id, k2.thing_id);
    assert_eq!(k1.location, k2.location);
    assert_eq!(k1.version, k2.version);
}

#[test]
fn collection_path_names() {
    assert_eq!(<Binding as CollectionPath>::DATABASE, "mydb");
    assert_eq!(<Binding as CollectionPath>::COLLECTION, "bindings");
}

#[test]
fn round_trip_preserves_entity() {
    let b = entity("carpet", "floor");
    let d = to_doc(&b);
    let back = from_doc(&d);
    assert!(back == b);
    assert!(back.id.is_none() && b.id.is_none());
    assert_eq!(back.thing_id, "carpet");
    assert_eq!(back.location, "floor");
    assert_eq!(back.version, "1.0.0");
}

#[test]
fn serialization_omits_empty_location() {
    let b = entity("carpet", "");
    let d = to_doc(&b);
    assert!(d.location.is_none());
    assert_eq!(d.thing_id.as_deref(), Some("carpet"));
    assert_eq!(d.version.as_deref(), Some("1.0.0"));
    assert!(d.id.is_none());
}

#[test]
fn serialization_omits_all_empty_filter_fields() {
    let f = Binding::filter_by_thing(&"carpet".to_string());
    let d = to_doc(&f);
    assert_eq!(d.thing_id.as_deref(), Some("carpet"));
    assert!(d.location.is_none());
    assert!(d.version.is_none());
    assert!(d.id.is_none());
}

#[test]
fn deserialization_fills_absent_fields_with_empty() {
    let d = BindingDoc { id: None, thing_id: Some("carpet".to_string()), location: None, version: None };
    let b = from_doc(&d);
    assert_eq!(b.thing_id, "carpet");
    assert_eq!(b.location, "");
    assert_eq!(b.version, "");
    assert!(b.id.is_none());
}

#[test]
fn filter_document_matches_full_document() {
    let b = entity("carpet", "floor");
    let (q, d) = prepare_upsert(&b);
    assert!(filter_matches(&q, &d));
    let other = to_doc(&entity("rug", "floor"));
    assert!(!filter_matches(&q, &other));
}

#[test]
fn prepare_upsert_builds_filter_and_full_document() {
    let b = entity("carpet", "floor");
    let (q, d) = prepare_upsert(&b);
    assert_eq!(q.thing_id.as_deref(), Some("carpet"));
    assert!(q.location.is_none());
    assert!(q.version.is_none());
    assert!(q.id.is_none());
    assert_eq!(d.thing_id.as_deref(), Some("carpet"));
    assert_eq!(d.location.as_deref(), Some("floor"));
    assert_eq!(d.version.as_deref(), Some("1.0.0"));
    assert!(d.id.is_none());
}

#[test]
fn upsert_twice_stores_one_document() {
    let b = entity("carpet", "floor");
    let mut store = MemStore::new();
    let r1 = store.upsert(&b);
    assert!(matches!(r1, MongoDBResult::SUCCESS));
    let r2 = store.upsert(&b);
    assert!(matches!(r2, MongoDBResult::SUCCESS));
    assert_eq!(store.len(), 1);
    let q = to_doc(&Binding::filter_by_thing(&"carpet".to_string()));
    assert_eq!(store.count_matching(&q), 1);
    let stored = store.get(0);
    assert_eq!(stored.thing_id.as_deref(), Some("carpet"));
    assert_eq!(stored.location.as_deref(), Some("floor"));
    assert_eq!(stored.version.as_deref(), Some("1.0.0"));
}

#[test]
fn upsert_same_thing_overwrites_location() {
    let first = entity("carpet", "floor");
    let second = entity("carpet", "sofa");
    let mut store = MemStore::new();
    store.upsert(&first);
    store.upsert(&second);
    assert_eq!(store.len(), 1);
    let stored = store.get(0);
    assert_eq!(stored.thing_id.as_deref(), Some("carpet"));
    assert_eq!(stored.location.as_deref(), Some("sofa"));
}

#[test]
fn upsert_different_things_stores_both() {
    let mut store = MemStore::new();
    store.upsert(&entity("carpet", "floor"));
    store.upsert(&entity("rug", "hall"));
    assert_eq!(store.len(), 2);
}

#[test]
fn upsert_keeps_store_assigned_identifier() {
    let mut store = MemStore::new();
    let assigned: Vec<u8> = vec![1, 2, 3, 4, 5, 6, 7, 8, 9, 10, 11, 12];
    let existing = BindingDoc {
        id: Some(assigned.clone()),
        thing_id: Some("carpet".to_string()),
        location: Some("floor".to_string()),
        version: Some("1.0.0".to_string()),
    };
    let anywhere = BindingDoc { id: None, thing_id: None, location: None, version: None };
    store.upsert_doc(&anywhere, &existing);
    assert_eq!(store.len(), 1);
    store.upsert(&entity("carpet", "sofa"));
    assert_eq!(store.len(), 1);
    let stored = store.get(0);
    assert_eq!(stored.id.as_deref(), Some(&assigned[..]));
    assert_eq!(stored.location.as_deref(), Some("sofa"));
}

#[test]
fn error_result_carries_message() {
    let e = MongoDBResult::ERROR("Insert error".to_string());
    match e {
        MongoDBResult::ERROR(msg) => assert_eq!(msg, "Insert error"),
        MongoDBResult::SUCCESS => panic!("expected an error result"),
    }
}
