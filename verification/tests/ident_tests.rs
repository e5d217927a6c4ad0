use imagstore::PathError;
use imagstore::ident::Identifier;
use imagstore::provider::PathProvider;

#[test]
fn from_path_rejects_unsafe_paths() {
    assert_eq!(Identifier::from_path("").unwrap_err(), PathError::Malformed);
    assert_eq!(Identifier::from_path("/abs/path").unwrap_err(), PathError::Malformed);
    assert_eq!(Identifier::from_path("\\abs").unwrap_err(), PathError::Malformed);
    assert_eq!(Identifier::from_path("../escape").unwrap_err(), PathError::Malformed);
    assert_eq!(Identifier::from_path("a/../b").unwrap_err(), PathError::Malformed);
    assert_eq!(Identifier::from_path("a/..").unwrap_err(), PathError::Malformed);
    assert_eq!(Identifier::from_path("a/./b").unwrap_err(), PathError::Malformed);
    assert_eq!(Identifier::from_path(".").unwrap_err(), PathError::Malformed);
    assert_eq!(Identifier::from_path("a//b").unwrap_err(), PathError::Malformed);
    assert_eq!(Identifier::from_path("a/b/").unwrap_err(), PathError::Malformed);
}

#[test]
fn from_path_normalizes() {
    let id = Identifier::from_path("Notes\\A").unwrap();
    assert_eq!(id.to_str(), "notes/a");
    let same = Identifier::from_path("notes/a").unwrap();
    assert!(id == same);
}

#[test]
fn from_path_idempotent_on_normalized_text() {
    let id = Identifier::from_path("habit/instance/2020").unwrap();
    let again = Identifier::from_path(id.to_str()).unwrap();
    assert!(id == again);
}

#[test]
fn to_path_prefixes_root() {
    let id = Identifier::from_path("notes/a").unwrap();
    assert_eq!(id.to_path("/srv/store"), "/srv/store/notes/a");
}

#[test]
fn is_in_collection_checks_leading_segments() {
    let id = Identifier::from_path("habit/instance/foo").unwrap();
    assert!(id.is_in_collection(&["habit"]));
    assert!(id.is_in_collection(&["habit", "instance"]));
    assert!(id.is_in_collection(&["habit", "instance", "foo"]));
    assert!(!id.is_in_collection(&["habit", "template"]));
    assert!(!id.is_in_collection(&["habi"]));
    assert!(id.is_in_collection(&[]));
}

#[test]
fn path_provider_validates_batches() {
    let ok = PathProvider::get_ids(&vec![String::from("a/b"), String::from("c")]).unwrap();
    assert_eq!(ok.len(), 2);
    assert_eq!(ok[0].to_str(), "a/b");
    let bad = PathProvider::get_ids(&vec![String::from("a"), String::from("../b")]);
    assert_eq!(bad.unwrap_err(), PathError::Malformed);
}
