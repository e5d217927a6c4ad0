use imagstore::StoreError;
use imagstore::ident::Identifier;
use imagstore::store::Store;

fn id(s: &str) -> Identifier {
    Identifier::from_path(s).unwrap()
}

#[test]
fn scenario_create_release_get_sees_content() {
    let mut store = Store::new(String::from("/tmp/store"));
    let a = id("notes/a");
    let mut h = store.create(&a).unwrap();
    h.set_content(String::from("hello"));
    store.release(h).unwrap();
    let h2 = store.get(&a).unwrap().unwrap();
    assert_eq!(h2.get_entry().get_content().as_str(), "hello");
    store.release(h2).unwrap();
}

#[test]
fn scenario_second_create_fails_locked() {
    let mut store = Store::new(String::from("/tmp/store"));
    let a = id("notes/a");
    let _h = store.create(&a).unwrap();
    let second = store.create(&a);
    assert!(matches!(second, Err(StoreError::Locked)));
}

#[test]
fn scenario_delete_nonexistent_not_found() {
    let mut store = Store::new(String::from("/tmp/store"));
    let a = id("notes/a");
    let r = store.delete(&a);
    assert!(matches!(r, Err(StoreError::NotFound)));
    let listed = store.entries();
    assert!(!listed.iter().any(|x| *x == a));
}

#[test]
fn get_absent_is_none() {
    let mut store = Store::new(String::from("/tmp/store"));
    let r = store.get(&id("notes/missing")).unwrap();
    assert!(r.is_none());
}

#[test]
fn get_while_locked_fails() {
    let mut store = Store::new(String::from("/tmp/store"));
    let a = id("notes/a");
    let _h = store.create(&a).unwrap();
    assert!(matches!(store.get(&a), Err(StoreError::Locked)));
    assert!(matches!(store.retrieve(&a), Err(StoreError::Locked)));
}

#[test]
fn create_after_release_already_exists() {
    let mut store = Store::new(String::from("/tmp/store"));
    let a = id("notes/a");
    let h = store.create(&a).unwrap();
    store.release(h).unwrap();
    assert!(matches!(store.create(&a), Err(StoreError::AlreadyExists)));
}

#[test]
fn retrieve_creates_then_loads() {
    let mut store = Store::new(String::from("/tmp/store"));
    let a = id("notes/a");
    let mut h = store.retrieve(&a).unwrap();
    h.set_content(String::from("first"));
    store.release(h).unwrap();
    let h2 = store.retrieve(&a).unwrap();
    assert_eq!(h2.get_entry().get_content().as_str(), "first");
    store.release(h2).unwrap();
}

#[test]
fn release_without_mutation_writes_nothing() {
    let mut store = Store::new(String::from("/tmp/store"));
    let a = id("notes/a");
    let mut h = store.create(&a).unwrap();
    h.set_content(String::from("persisted"));
    store.release(h).unwrap();
    let before = store.file_text(&a).unwrap();
    let h2 = store.get(&a).unwrap().unwrap();
    store.release(h2).unwrap();
    let after = store.file_text(&a).unwrap();
    assert_eq!(before, after);
}

#[test]
fn update_persists_without_release() {
    let mut store = Store::new(String::from("/tmp/store"));
    let a = id("notes/a");
    let mut h = store.create(&a).unwrap();
    h.set_content(String::from("mid"));
    store.update(&h).unwrap();
    let text = store.file_text(&a).unwrap();
    assert!(text.contains("mid"));
    store.release(h).unwrap();
}

#[test]
fn delete_after_release_removes_entry() {
    let mut store = Store::new(String::from("/tmp/store"));
    let a = id("notes/a");
    let h = store.create(&a).unwrap();
    store.release(h).unwrap();
    assert_eq!(store.entries().len(), 1);
    store.delete(&a).unwrap();
    assert_eq!(store.entries().len(), 0);
    assert!(store.file_text(&a).is_none());
}

#[test]
fn delete_locked_fails() {
    let mut store = Store::new(String::from("/tmp/store"));
    let a = id("notes/a");
    let _h = store.create(&a).unwrap();
    assert!(matches!(store.delete(&a), Err(StoreError::Locked)));
}

#[test]
fn entries_lists_on_disk_entries() {
    let mut store = Store::new(String::from("/tmp/store"));
    let a = id("notes/a");
    let b = id("notes/b");
    let ha = store.create(&a).unwrap();
    store.release(ha).unwrap();
    let hb = store.create(&b).unwrap();
    store.release(hb).unwrap();
    let listed = store.entries();
    assert_eq!(listed.len(), 2);
    assert!(listed.iter().any(|x| *x == a));
    assert!(listed.iter().any(|x| *x == b));
}

#[test]
fn preload_then_get_round_trips() {
    let mut store = Store::new(String::from("/tmp/store"));
    let a = id("notes/a");
    let mut scratch = Store::new(String::from("/tmp/other"));
    let mut h = scratch.create(&a).unwrap();
    h.set_content(String::from("from disk"));
    store_text_roundtrip(&mut scratch, &mut store, &a, h);
    let h2 = store.get(&a).unwrap().unwrap();
    assert_eq!(h2.get_entry().get_content().as_str(), "from disk");
}

fn store_text_roundtrip(
    scratch: &mut Store,
    store: &mut Store,
    a: &Identifier,
    h: imagstore::store::Handle,
) {
    scratch.release(h).unwrap();
    let text = scratch.file_text(a).unwrap();
    store.preload(a, text).unwrap();
}

#[test]
fn preload_corrupt_text_fails_get() {
    let mut store = Store::new(String::from("/tmp/store"));
    let a = id("notes/a");
    store.preload(&a, String::from("not an entry")).unwrap();
    assert!(matches!(store.get(&a), Err(StoreError::Corrupt)));
}

#[test]
fn handle_location_matches() {
    let mut store = Store::new(String::from("/tmp/store"));
    let a = id("notes/a");
    let h = store.create(&a).unwrap();
    assert!(*h.get_location() == a);
    store.release(h).unwrap();
}

#[test]
fn mutation_through_handle_persists_on_release() {
    let mut store = Store::new(String::from("/tmp/store"));
    let a = id("notes/a");
    let mut h = store.create(&a).unwrap();
    h.header_insert("note.name", imagstore::value::Value::Str(String::from("x"))).unwrap();
    store.release(h).unwrap();
    let h2 = store.get(&a).unwrap().unwrap();
    match h2.get_entry().header_read("note.name") {
        Some(imagstore::value::Value::Str(s)) => assert_eq!(s.as_str(), "x"),
        other => panic!("unexpected header value: {:?}", other.is_some()),
    }
    store.release(h2).unwrap();
}
