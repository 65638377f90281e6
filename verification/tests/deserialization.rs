use parent_child::child::{Child, ChildDTO, ParentRef};
use parent_child::errors::{Error, FieldName};
use parent_child::parent::Parent;

#[test]
fn deserialize_canonical_input() {
    let parent = Parent::deserialize("{\"id\":1,\"child\":{\"id\":200,\"parent_id\":1}}").unwrap();
    assert_eq!(parent.id, 1);
    assert_eq!(parent.child.id, 200);
    assert_eq!(parent.child.resolve_parent().unwrap(), 1);
}

#[test]
fn round_trip() {
    let original = Parent::new_pair(1, 200);
    let doc = original.serialize().unwrap();
    let rebuilt = Parent::deserialize(&doc).unwrap();
    assert_eq!(rebuilt.id, 1);
    assert_eq!(rebuilt.child.id, 200);
    assert_eq!(rebuilt.child.resolve_parent().unwrap(), 1);
}

#[test]
fn round_trip_extreme_ids() {
    for (idp, idc) in [(0u64, 0u64), (u64::MAX, 0), (0, u64::MAX), (u64::MAX, u64::MAX)] {
        let doc = Parent::new_pair(idp, idc).serialize().unwrap();
        let rebuilt = Parent::deserialize(&doc).unwrap();
        assert_eq!(rebuilt.id, idp);
        assert_eq!(rebuilt.child.id, idc);
    }
}

#[test]
fn deserialize_field_order_insensitive() {
    for doc in [
        "{\"child\":{\"id\":200,\"parent_id\":1},\"id\":1}",
        "{\"id\":1,\"child\":{\"parent_id\":1,\"id\":200}}",
        "{\"child\":{\"parent_id\":1,\"id\":200},\"id\":1}",
        "{\"id\":1,\"child\":{\"id\":200,\"parent\":1}}",
        "{\"child\":{\"parent\":1,\"id\":200},\"id\":1}",
    ] {
        let parent = Parent::deserialize(doc).unwrap();
        assert_eq!(parent.id, 1);
        assert_eq!(parent.child.id, 200);
        assert_eq!(parent.child.resolve_parent().unwrap(), 1);
    }
}

#[test]
fn integrity_mismatch_rejected() {
    let r = Parent::deserialize("{\"id\":1,\"child\":{\"id\":200,\"parent_id\":2}}");
    assert!(matches!(r, Err(Error::IntegrityMismatch)));
}

#[test]
fn duplicate_field_rejected() {
    let r = Parent::deserialize("{\"id\":1,\"id\":1,\"child\":{\"id\":200,\"parent_id\":1}}");
    assert!(matches!(r, Err(Error::DuplicateField(FieldName::Id))));
    let r = Parent::deserialize("{\"id\":1,\"child\":{\"id\":200,\"parent_id\":1},\"child\":{\"id\":200,\"parent_id\":1}}");
    assert!(matches!(r, Err(Error::DuplicateField(FieldName::Child))));
    let r = Parent::deserialize("{\"id\":1,\"child\":{\"id\":200,\"parent_id\":1,\"parent\":1}}");
    assert!(matches!(r, Err(Error::DuplicateField(FieldName::ParentId))));
    let r = Parent::deserialize("{\"id\":1,\"child\":{\"parent\":1,\"parent_id\":1,\"id\":200}}");
    assert!(matches!(r, Err(Error::DuplicateField(FieldName::ParentId))));
}

#[test]
fn unknown_field_rejected() {
    match Parent::deserialize("{\"id\":1,\"child\":{\"id\":200,\"parent_id\":1},\"extra\":true}") {
        Err(Error::UnknownField(name)) => assert_eq!(name, "extra"),
        other => panic!("expected an unknown-field failure, got {:?}", other),
    }
    match Parent::deserialize("{\"name\":3}") {
        Err(Error::UnknownField(name)) => assert_eq!(name, "name"),
        other => panic!("expected an unknown-field failure, got {:?}", other),
    }
    match Parent::deserialize("{\"id\":1,\"child\":{\"id\":200,\"parent_ids\":1}}") {
        Err(Error::UnknownField(name)) => assert_eq!(name, "parent_ids"),
        other => panic!("expected an unknown-field failure, got {:?}", other),
    }
}

#[test]
fn missing_field_rejected() {
    let r = Parent::deserialize("{}");
    assert!(matches!(r, Err(Error::MissingField(FieldName::Id))));
    let r = Parent::deserialize("{\"id\":1}");
    assert!(matches!(r, Err(Error::MissingField(FieldName::Child))));
    let r = Parent::deserialize("{\"child\":{\"id\":200,\"parent_id\":1}}");
    assert!(matches!(r, Err(Error::MissingField(FieldName::Id))));
    let r = Parent::deserialize("{\"id\":1,\"child\":{\"id\":200}}");
    assert!(matches!(r, Err(Error::MissingField(FieldName::ParentId))));
    let r = Parent::deserialize("{\"id\":1,\"child\":{\"parent_id\":1}}");
    assert!(matches!(r, Err(Error::MissingField(FieldName::Id))));
    let r = Parent::deserialize("{\"id\":1,\"child\":{}}");
    assert!(matches!(r, Err(Error::MissingField(FieldName::Id))));
}

#[test]
fn malformed_documents_rejected() {
    for doc in [
        "",
        "{",
        "[]",
        "{\"id\":01,\"child\":{\"id\":200,\"parent_id\":1}}",
        "{\"id\":18446744073709551616,\"child\":{\"id\":200,\"parent_id\":1}}",
        "{\"id\":1,\"child\":{\"id\":200,\"parent_id\":1}}tail",
        "{\"id\":1,\"child\":{\"id\":200,\"parent_id\":1}",
        "{\"id\" 1,\"child\":{\"id\":200,\"parent_id\":1}}",
        "{\"id\":1,\"child\":[200]}",
        "{\"id\":-1,\"child\":{\"id\":200,\"parent_id\":-1}}",
    ] {
        assert!(matches!(Parent::deserialize(doc), Err(Error::Syntax)));
    }
}

#[test]
fn no_nested_parent_object_in_child() {
    match Parent::deserialize("{\"id\":1,\"child\":{\"id\":200,\"parent\":{\"id\":1}}}") {
        Err(Error::Syntax) => {},
        other => panic!("expected a syntax failure, got {:?}", other),
    }
}

#[test]
fn assemble_validates_and_links() {
    let parent = Parent::assemble(Some(1), Some(ChildDTO { id: 200, parent_id: 1 })).unwrap();
    assert_eq!(parent.id, 1);
    assert_eq!(parent.child.id, 200);
    assert_eq!(parent.child.resolve_parent().unwrap(), 1);
    let r = Parent::assemble(Some(1), Some(ChildDTO { id: 200, parent_id: 2 }));
    assert!(matches!(r, Err(Error::IntegrityMismatch)));
    let r = Parent::assemble(None, None);
    assert!(matches!(r, Err(Error::MissingField(FieldName::Id))));
    let r = Parent::assemble(Some(1), None);
    assert!(matches!(r, Err(Error::MissingField(FieldName::Child))));
}

#[test]
fn failed_deserialization_builds_nothing() {
    let unwired = Child { id: 200, parent: ParentRef::Unset };
    assert!(matches!(unwired.resolve_parent(), Err(Error::DanglingReference)));
    let r = Parent::deserialize("{\"id\":1,\"child\":{\"id\":200,\"parent_id\":2}}");
    assert!(r.is_err());
}
