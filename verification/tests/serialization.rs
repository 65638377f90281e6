use parent_child::child::{Child, ParentRef};
use parent_child::errors::Error;
use parent_child::parent::Parent;

#[test]
fn child_serialize() {
    let parent = Parent::new_pair(1, 200);
    let child_json = parent.child.serialize().unwrap();
    assert_eq!(child_json, "{\"id\":200,\"parent\":1}");
}

#[test]
fn parent_serialize() {
    let parent = Parent::new_pair(1, 200);
    let parent_json = parent.serialize().unwrap();
    assert_eq!(parent_json, "{\"id\":1,\"child\":{\"id\":200,\"parent\":1}}");
}

#[test]
fn serialize_zero_ids() {
    let parent = Parent::new_pair(0, 0);
    assert_eq!(parent.serialize().unwrap(), "{\"id\":0,\"child\":{\"id\":0,\"parent\":0}}");
}

#[test]
fn serialize_max_ids() {
    let parent = Parent::new_pair(u64::MAX, u64::MAX);
    assert_eq!(
        parent.serialize().unwrap(),
        "{\"id\":18446744073709551615,\"child\":{\"id\":18446744073709551615,\"parent\":18446744073709551615}}"
    );
}

#[test]
fn resolve_parent_while_owned() {
    let parent = Parent::new_pair(7, 9);
    assert_eq!(parent.child.resolve_parent().unwrap(), 7);
}

#[test]
fn serialize_unwired_child_fails() {
    let child = Child { id: 5, parent: ParentRef::Unset };
    assert!(matches!(child.serialize(), Err(Error::DanglingReference)));
}

#[test]
fn serialize_after_release_fails() {
    let parent = Parent::new_pair(1, 200);
    let orphan = parent.release();
    assert_eq!(orphan.id, 200);
    assert!(matches!(orphan.serialize(), Err(Error::DanglingReference)));
    assert!(matches!(orphan.resolve_parent(), Err(Error::DanglingReference)));
}

#[test]
fn parent_serialize_propagates_dangling() {
    let parent = Parent {
        id: 3,
        child: Child { id: 4, parent: ParentRef::Unset },
    };
    assert!(matches!(parent.serialize(), Err(Error::DanglingReference)));
}
