use imagstore::TypeError;
use imagstore::entry::Entry;
use imagstore::fieldpred::entry_eq;
use imagstore::value::Value;

fn sample_entry() -> Entry {
    let mut e = Entry::empty();
    e.header_insert("note.name", Value::Str(String::from("my note"))).unwrap();
    e.header_insert("note.count", Value::Int(-42)).unwrap();
    e.header_insert("note.flag", Value::Bool(true)).unwrap();
    e.header_insert(
        "note.tags",
        Value::List(vec![Value::Str(String::from("a")), Value::Int(7)]),
    )
    .unwrap();
    e.header_insert(
        "meta",
        Value::Table(vec![(String::from("k"), Value::Str(String::from("v")))]),
    )
    .unwrap();
    e.set_content(String::from("line one\nline two: with s5:tricky text\n"));
    e
}

#[test]
fn round_trip_parse_serialize() {
    let e = sample_entry();
    let text = e.serialize();
    let back = Entry::parse(text.as_str()).unwrap();
    assert!(entry_eq(&e, &back));
}

#[test]
fn round_trip_empty_entry() {
    let e = Entry::empty();
    let text = e.serialize();
    let back = Entry::parse(text.as_str()).unwrap();
    assert!(entry_eq(&e, &back));
    assert_eq!(back.get_content().as_str(), "");
}

#[test]
fn round_trip_unicode_text() {
    let mut e = Entry::empty();
    e.header_insert("griff.name", Value::Str(String::from("Grüße aus Köln ✓"))).unwrap();
    e.header_insert("ключ.значение", Value::Str(String::from("日本語"))).unwrap();
    e.set_content(String::from("Füße 漢字 → emoji 🦀 done"));
    let text = e.serialize();
    let back = Entry::parse(text.as_str()).unwrap();
    assert!(entry_eq(&e, &back));
    assert_eq!(
        back.read_string("griff.name").unwrap(),
        Some(String::from("Grüße aus Köln ✓"))
    );
}

#[test]
fn round_trip_nested_structures() {
    let mut e = Entry::empty();
    e.header_insert(
        "deep",
        Value::List(vec![
            Value::Table(vec![(String::from("inner"), Value::List(vec![Value::Bool(false)]))]),
            Value::Str(String::new()),
        ]),
    )
    .unwrap();
    let text = e.serialize();
    let back = Entry::parse(text.as_str()).unwrap();
    assert!(entry_eq(&e, &back));
}

#[test]
fn round_trip_extreme_integers() {
    let mut e = Entry::empty();
    e.header_insert("a.min", Value::Int(i64::MIN)).unwrap();
    e.header_insert("a.max", Value::Int(i64::MAX)).unwrap();
    e.header_insert("a.zero", Value::Int(0)).unwrap();
    let text = e.serialize();
    let back = Entry::parse(text.as_str()).unwrap();
    assert!(entry_eq(&e, &back));
}

#[test]
fn serialize_is_deterministic() {
    let a = sample_entry();
    let b = sample_entry();
    assert_eq!(a.serialize(), b.serialize());
}

#[test]
fn serialized_form_layout() {
    let mut e = Entry::empty();
    e.header_insert("k", Value::Int(5)).unwrap();
    e.set_content(String::from("body"));
    assert_eq!(e.serialize(), "tk1:ki5;e\nbody");
}

#[test]
fn parse_rejects_malformed_header() {
    assert!(Entry::parse("garbage").is_err());
    assert!(Entry::parse("").is_err());
    assert!(Entry::parse("te").is_err());
    assert!(Entry::parse("tk1:ki5;e body-without-newline").is_err());
    assert!(Entry::parse("s3:abc\ncontent").is_err());
}

#[test]
fn parse_rejects_duplicate_keys() {
    assert!(Entry::parse("tk1:ai1;k1:ai2;e\n").is_err());
    assert!(Entry::parse("tk1:atk1:bi1;k1:bi2;ee\n").is_err());
    assert!(Entry::parse("tk1:ai1;k1:bi2;e\n").is_ok());
}

#[test]
fn insert_rejects_duplicate_key_table_value() {
    let mut e = Entry::empty();
    let dup = Value::Table(vec![
        (String::from("k"), Value::Int(1)),
        (String::from("k"), Value::Int(2)),
    ]);
    assert_eq!(e.header_insert("a", dup), Err(TypeError::Mismatch));
    assert!(e.header_read("a").is_none());
    let ok = Value::Table(vec![
        (String::from("k"), Value::Int(1)),
        (String::from("k2"), Value::Int(2)),
    ]);
    assert!(e.header_insert("a", ok).is_ok());
}

#[test]
fn delete_then_read_is_absent() {
    let mut e = Entry::empty();
    e.header_insert("timetrack.start", Value::Str(String::from("x"))).unwrap();
    e.header_insert("timetrack.end", Value::Str(String::from("y"))).unwrap();
    assert_eq!(e.header_delete("timetrack.start"), Ok(true));
    assert!(e.header_read("timetrack.start").is_none());
    assert_eq!(e.read_string("timetrack.end").unwrap(), Some(String::from("y")));
}

#[test]
fn parse_accepts_empty_header() {
    let e = Entry::parse("te\nsome content").unwrap();
    assert_eq!(e.get_content().as_str(), "some content");
    assert!(e.header_read("anything").is_none());
}

#[test]
fn header_read_absent_is_none() {
    let e = sample_entry();
    assert!(e.header_read("missing.field").is_none());
    assert!(e.header_read("note.absent").is_none());
}

#[test]
fn header_read_through_non_table_is_none() {
    let e = sample_entry();
    assert!(e.header_read("note.name.deeper").is_none());
}

#[test]
fn header_insert_creates_intermediate_tables() {
    let mut e = Entry::empty();
    e.header_insert("a.b.c", Value::Int(1)).unwrap();
    match e.header_read("a.b.c") {
        Some(Value::Int(i)) => assert_eq!(*i, 1),
        _ => panic!("expected integer"),
    }
}

#[test]
fn header_insert_replaces_existing() {
    let mut e = Entry::empty();
    e.header_insert("a", Value::Int(1)).unwrap();
    e.header_insert("a", Value::Int(2)).unwrap();
    match e.header_read("a") {
        Some(Value::Int(i)) => assert_eq!(*i, 2),
        _ => panic!("expected integer"),
    }
}

#[test]
fn header_insert_type_error_on_non_table_intermediate() {
    let mut e = Entry::empty();
    e.header_insert("a", Value::Int(1)).unwrap();
    let r = e.header_insert("a.b", Value::Int(2));
    assert_eq!(r, Err(TypeError::Mismatch));
    match e.header_read("a") {
        Some(Value::Int(i)) => assert_eq!(*i, 1),
        _ => panic!("expected the header to be unchanged"),
    }
}

#[test]
fn header_delete_reports_existence() {
    let mut e = Entry::empty();
    e.header_insert("a.b", Value::Bool(true)).unwrap();
    assert_eq!(e.header_delete("a.b"), Ok(true));
    assert_eq!(e.header_delete("a.b"), Ok(false));
    assert!(e.header_read("a.b").is_none());
}

#[test]
fn header_delete_type_error_on_non_table_intermediate() {
    let mut e = Entry::empty();
    e.header_insert("a", Value::Str(String::from("s"))).unwrap();
    assert_eq!(e.header_delete("a.b"), Err(TypeError::Mismatch));
}

#[test]
fn read_string_and_bool_typed() {
    let e = sample_entry();
    assert_eq!(e.read_string("note.name").unwrap(), Some(String::from("my note")));
    assert_eq!(e.read_string("missing").unwrap(), None);
    assert!(e.read_string("note.count").is_err());
    assert_eq!(e.read_bool("note.flag").unwrap(), Some(true));
    assert!(e.read_bool("note.name").is_err());
}
