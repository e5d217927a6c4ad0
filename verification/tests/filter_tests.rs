use imagstore::StoreError;
use imagstore::entry::Entry;
use imagstore::ident::Identifier;
use imagstore::store::Store;
use imagstore::filter::compile;
use imagstore::filter::evaluate;
use imagstore::value::Value;

fn entry_with_name(name: &str) -> Entry {
    let mut e = Entry::empty();
    e.header_insert("note.name", Value::Str(String::from(name))).unwrap();
    e.header_insert("note.count", Value::Int(5)).unwrap();
    e.header_insert("note.flag", Value::Bool(true)).unwrap();
    e
}

#[test]
fn scenario_filter_matches_and_mismatches() {
    let e = entry_with_name("x");
    let yes = compile("note.name == \"x\"").unwrap();
    assert!(evaluate(&yes, &e));
    let no = compile("note.name == \"y\"").unwrap();
    assert!(!evaluate(&no, &e));
    let absent = compile("missing.field == \"x\"").unwrap();
    assert!(!evaluate(&absent, &e));
}

#[test]
fn scenario_query_compiles_and_incomplete_fails() {
    assert!(compile("a and (b or not c)").is_ok());
    assert!(compile("a and").is_err());
}

#[test]
fn compile_error_echoes_query() {
    match compile("a and") {
        Err(imagstore::SyntaxError::Malformed(q)) => assert_eq!(q, "a and"),
        Ok(_) => panic!("the incomplete query must not compile"),
    }
}

#[test]
fn evaluate_total_on_type_mismatch() {
    let e = entry_with_name("x");
    let p = compile("note.name > 3").unwrap();
    assert!(!evaluate(&p, &e));
    let q = compile("note.count == \"5\"").unwrap();
    assert!(!evaluate(&q, &e));
}

#[test]
fn integer_comparisons() {
    let e = entry_with_name("x");
    assert!(evaluate(&compile("note.count == 5").unwrap(), &e));
    assert!(evaluate(&compile("note.count != 4").unwrap(), &e));
    assert!(evaluate(&compile("note.count > 4").unwrap(), &e));
    assert!(evaluate(&compile("note.count >= 5").unwrap(), &e));
    assert!(evaluate(&compile("note.count < 6").unwrap(), &e));
    assert!(evaluate(&compile("note.count <= 5").unwrap(), &e));
    assert!(!evaluate(&compile("note.count > 5").unwrap(), &e));
    assert!(evaluate(&compile("note.count == 5").unwrap(), &e));
}

#[test]
fn negative_integer_literal() {
    let mut e = Entry::empty();
    e.header_insert("n", Value::Int(-3)).unwrap();
    assert!(evaluate(&compile("n == -3").unwrap(), &e));
    assert!(evaluate(&compile("n < -2").unwrap(), &e));
}

#[test]
fn boolean_literals_and_bare_path() {
    let e = entry_with_name("x");
    assert!(evaluate(&compile("note.flag == true").unwrap(), &e));
    assert!(!evaluate(&compile("note.flag == false").unwrap(), &e));
    assert!(evaluate(&compile("note.flag").unwrap(), &e));
    assert!(!evaluate(&compile("note.name").unwrap(), &e));
    assert!(!evaluate(&compile("note.missing").unwrap(), &e));
}

#[test]
fn precedence_not_and_or() {
    let e = entry_with_name("x");
    // not binds tightest: this reads (not missing) and flag.
    let p = compile("not missing and note.flag").unwrap();
    assert!(evaluate(&p, &e));
    // and binds tighter than or: false and false or true is true.
    let q = compile("missing and missing or note.flag").unwrap();
    assert!(evaluate(&q, &e));
    // parentheses override: false and (false or true) is false.
    let r = compile("missing and (missing or note.flag)").unwrap();
    assert!(!evaluate(&r, &e));
}

#[test]
fn keywords_case_insensitive() {
    let e = entry_with_name("x");
    let p = compile("NOT missing AND note.flag OR missing").unwrap();
    assert!(evaluate(&p, &e));
    assert!(evaluate(&compile("note.flag == TRUE").unwrap(), &e));
}

#[test]
fn malformed_queries_rejected() {
    assert!(compile("").is_err());
    assert!(compile("(a").is_err());
    assert!(compile("a ==").is_err());
    assert!(compile("== 3").is_err());
    assert!(compile("a = 3").is_err());
    assert!(compile("a == \"unterminated").is_err());
    assert!(compile("a b").is_err());
    assert!(compile("not").is_err());
    assert!(compile("a == 99999999999999999999999999").is_err());
}

#[test]
fn string_comparison_only_equality() {
    let e = entry_with_name("x");
    assert!(!evaluate(&compile("note.name > \"a\"").unwrap(), &e));
    assert!(evaluate(&compile("note.name != \"y\"").unwrap(), &e));
}

#[test]
fn filtered_iteration_yields_exactly_matching_entries() {
    let mut store = Store::new(String::from("/tmp/store"));
    for (name, a, b, c) in [
        ("notes/one", true, false, false),
        ("notes/two", true, true, true),
        ("notes/three", false, true, false),
    ] {
        let id = Identifier::from_path(name).unwrap();
        let mut h = store.create(&id).unwrap();
        h.header_insert("a", Value::Bool(a)).unwrap();
        h.header_insert("b", Value::Bool(b)).unwrap();
        h.header_insert("c", Value::Bool(c)).unwrap();
        store.release(h).unwrap();
    }
    let p = compile("a and (b or not c)").unwrap();
    let ids = store.entries_where(&p).unwrap();
    let names: Vec<&str> = ids.iter().map(|i| i.to_str()).collect();
    assert_eq!(names.len(), 2);
    assert!(names.contains(&"notes/one"));
    assert!(names.contains(&"notes/two"));
    assert!(!names.contains(&"notes/three"));
}

#[test]
fn filtered_iteration_fails_on_contention() {
    let mut store = Store::new(String::from("/tmp/store"));
    let id = Identifier::from_path("notes/a").unwrap();
    let h = store.create(&id).unwrap();
    store.release(h).unwrap();
    let _held = store.get(&id).unwrap().unwrap();
    let p = compile("a").unwrap();
    assert!(matches!(store.entries_where(&p), Err(StoreError::Locked)));
}
