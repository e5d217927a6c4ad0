use imagstore::FieldError;
use imagstore::contact::DeserVcard;
use imagstore::contact::Email;
use imagstore::diary::DiaryId;
use imagstore::diary::Timed;
use imagstore::diary::diary_names;
use imagstore::diary::parse_timed_string;
use imagstore::diary::timed_entry_time;
use imagstore::diary::youngest;
use imagstore::entry::Entry;
use imagstore::fieldpred::FieldEq;
use imagstore::fieldpred::FieldGt;
use imagstore::habit::IsHabitCheck;
use imagstore::habit::get_string_header_from_entry;
use imagstore::ident::Identifier;
use imagstore::markdown::LinkProcessor;
use imagstore::store::Store;
use imagstore::timetrack::DateTime;
use imagstore::timetrack::fmt_dt_x;
use imagstore::timetrack::header_value_to_dt;
use imagstore::timetrack::parse_dt_x;
use imagstore::value::Value;
use imagstore::viewer::PlainViewer;

fn dt(y: u16, mo: u8, d: u8, h: u8, mi: u8, s: u8) -> DateTime {
    DateTime { year: y, month: mo, day: d, hour: h, minute: mi, second: s }
}

fn empty_vcard() -> DeserVcard {
    DeserVcard {
        adr: vec![],
        anniversary: None,
        bday: None,
        categories: vec![],
        clientpidmap: None,
        email: vec![],
        fullname: vec![],
        gender: None,
        geo: vec![],
        impp: vec![],
        key: vec![],
        lang: vec![],
        logo: vec![],
        member: vec![],
        name: None,
        nickname: vec![],
        note: vec![],
        org: vec![],
        photo: vec![],
        proid: None,
        related: vec![],
        rev: None,
        role: vec![],
        sound: vec![],
        tel: vec![],
        title: vec![],
        tz: vec![],
        uid: None,
        url: vec![],
        version: None,
    }
}

#[test]
fn vcard_accessors_return_fields() {
    let mut c = empty_vcard();
    c.fullname = vec![String::from("Ada Lovelace")];
    c.name = Some(String::from("Ada"));
    c.email = vec![Email { address: String::from("ada@example.org"), properties: vec![] }];
    assert_eq!(c.fullname(), &vec![String::from("Ada Lovelace")]);
    assert_eq!(c.name(), Some(&String::from("Ada")));
    assert_eq!(c.email().len(), 1);
    assert_eq!(c.email()[0].address, "ada@example.org");
    assert!(c.adr().is_empty());
    assert!(c.anniversary().is_none());
    assert!(c.bday().is_none());
    assert!(c.categories().is_empty());
    assert!(c.clientpidmap().is_none());
    assert!(c.gender().is_none());
    assert!(c.geo().is_empty());
    assert!(c.impp().is_empty());
    assert!(c.key().is_empty());
    assert!(c.lang().is_empty());
    assert!(c.logo().is_empty());
    assert!(c.member().is_empty());
    assert!(c.nickname().is_empty());
    assert!(c.note().is_empty());
    assert!(c.org().is_empty());
    assert!(c.photo().is_empty());
    assert!(c.proid().is_none());
    assert!(c.related().is_empty());
    assert!(c.rev().is_none());
    assert!(c.role().is_empty());
    assert!(c.sound().is_empty());
    assert!(c.tel().is_empty());
    assert!(c.title().is_empty());
    assert!(c.tz().is_empty());
    assert!(c.uid().is_none());
    assert!(c.url().is_empty());
    assert!(c.version().is_none());
}

#[test]
fn habit_checks_by_collection() {
    let a = Identifier::from_path("habit/instance/2020").unwrap();
    assert!(a.is_habit());
    assert!(a.is_habit_instance());
    assert!(!a.is_habit_template());
    let b = Identifier::from_path("habit/template/x").unwrap();
    assert!(b.is_habit());
    assert!(!b.is_habit_instance());
    assert!(b.is_habit_template());
    let c = Identifier::from_path("notes/a").unwrap();
    assert!(!c.is_habit());
}

#[test]
fn habit_check_on_handle() {
    let mut store = Store::new(String::from("/tmp/store"));
    let id = Identifier::from_path("habit/instance/today").unwrap();
    let h = store.create(&id).unwrap();
    assert!(h.is_habit());
    assert!(h.is_habit_instance());
    store.release(h).unwrap();
}

#[test]
fn string_header_helper() {
    let mut e = Entry::empty();
    e.header_insert("habit.name", Value::Str(String::from("walk"))).unwrap();
    e.header_insert("habit.count", Value::Int(2)).unwrap();
    assert_eq!(get_string_header_from_entry(&e, "habit.name").unwrap(), "walk");
    assert_eq!(
        get_string_header_from_entry(&e, "habit.missing").unwrap_err(),
        FieldError::Missing
    );
    assert_eq!(
        get_string_header_from_entry(&e, "habit.count").unwrap_err(),
        FieldError::Mismatch
    );
}

#[test]
fn note_accessors_on_handle() {
    let mut store = Store::new(String::from("/tmp/store"));
    let id = Identifier::from_path("notes/today").unwrap();
    let mut h = store.create(&id).unwrap();
    h.set_name(String::from("today's note")).unwrap();
    h.set_text(String::from("remember the milk"));
    assert_eq!(h.get_name().unwrap(), "today's note");
    assert_eq!(h.get_text().as_str(), "remember the milk");
    store.release(h).unwrap();
}

#[test]
fn log_flag_round_trip() {
    let mut store = Store::new(String::from("/tmp/store"));
    let id = Identifier::from_path("log/x").unwrap();
    let mut h = store.create(&id).unwrap();
    assert_eq!(h.get_entry().is_log().unwrap(), false);
    h.make_log_entry().unwrap();
    assert_eq!(h.get_entry().is_log().unwrap(), true);
    store.release(h).unwrap();
}

#[test]
fn task_uuid_parsing() {
    let mut e = Entry::empty();
    assert_eq!(e.get_uuid().unwrap_err(), FieldError::Missing);
    e.header_insert("todo.uuid", Value::Str(String::from("not-a-uuid"))).unwrap();
    match e.get_uuid().unwrap_err() {
        FieldError::Invalid(msg) => {
            assert!(msg.contains("not-a-uuid"));
            assert!(msg.contains("UUID"));
        },
        other => panic!("expected an invalid-field error, got {:?}", other),
    }
    e.header_insert(
        "todo.uuid",
        Value::Str(String::from("550e8400-e29b-41d4-a716-446655440000")),
    )
    .unwrap();
    let u = e.get_uuid().unwrap();
    assert_eq!(u, uuid::Uuid::parse_str("550e8400-e29b-41d4-a716-446655440000").unwrap());
    e.header_insert("todo.uuid", Value::Int(5)).unwrap();
    assert_eq!(e.get_uuid().unwrap_err(), FieldError::Mismatch);
}

#[test]
fn datetime_text_round_trip() {
    let t = dt(2024, 2, 29, 23, 59, 7);
    let text = fmt_dt_x(&t);
    assert_eq!(text, "2024-02-29T23:59:07");
    assert_eq!(parse_dt_x(text.as_str()), Some(t));
    assert_eq!(parse_dt_x("2024-13-01T00:00:00"), None);
    assert_eq!(parse_dt_x("2024-02-29"), None);
    assert_eq!(header_value_to_dt(Some(String::from("2024-02-29T23:59:07"))).unwrap(), Some(t));
    assert_eq!(header_value_to_dt(None).unwrap(), None);
    match header_value_to_dt(Some(String::from("bogus"))).unwrap_err() {
        FieldError::Invalid(msg) => {
            assert!(msg.contains("bogus"));
            assert!(msg.contains("YYYY-MM-DDThh:mm:ss"));
        },
        other => panic!("expected an invalid-field error, got {:?}", other),
    }
}

#[test]
fn timetrack_fields_on_handle() {
    let mut store = Store::new(String::from("/tmp/store"));
    let id = Identifier::from_path("timetrack/2024/walk").unwrap();
    let mut h = store.create(&id).unwrap();
    assert_eq!(h.get_timetrack_tag().unwrap_err(), FieldError::Missing);
    h.header_insert("timetrack.tag", Value::Str(String::from("walk"))).unwrap();
    assert_eq!(h.get_timetrack_tag().unwrap(), "walk");
    assert_eq!(h.get_start_datetime().unwrap(), None);
    let start = dt(2024, 1, 2, 9, 0, 0);
    let end = dt(2024, 1, 2, 10, 30, 0);
    h.set_start_datetime(start).unwrap();
    h.set_end_datetime(end).unwrap();
    assert_eq!(h.get_start_datetime().unwrap(), Some(start));
    assert_eq!(h.get_end_datetime().unwrap(), Some(end));
    assert_eq!(h.valid().unwrap(), true);
    h.set_end_datetime(dt(2024, 1, 2, 8, 0, 0)).unwrap();
    assert_eq!(h.valid().unwrap(), false);
    assert_eq!(h.delete_end_datetime().unwrap(), true);
    assert_eq!(h.get_end_datetime().unwrap(), None);
    assert_eq!(h.delete_start_datetime().unwrap(), true);
    store.release(h).unwrap();
}

#[test]
fn timed_parsing_all_forms() {
    assert_eq!(parse_timed_string("d", "work").unwrap(), Timed::Daily);
    assert_eq!(parse_timed_string("daily", "work").unwrap(), Timed::Daily);
    assert_eq!(parse_timed_string("h", "work").unwrap(), Timed::Hourly);
    assert_eq!(parse_timed_string("hourly", "work").unwrap(), Timed::Hourly);
    assert_eq!(parse_timed_string("m", "work").unwrap(), Timed::Minutely);
    assert_eq!(parse_timed_string("minutely", "work").unwrap(), Timed::Minutely);
    assert_eq!(parse_timed_string("s", "work").unwrap(), Timed::Secondly);
    assert_eq!(parse_timed_string("secondly", "work").unwrap(), Timed::Secondly);
    let err = parse_timed_string("weekly", "work").unwrap_err();
    assert!(err.contains("work"));
    assert!(err.contains("weekly"));
}

#[test]
fn timed_rounding() {
    let now = dt(2024, 5, 6, 13, 37, 42);
    let daily = timed_entry_time(&Timed::Daily, &now, None, None);
    assert_eq!(daily, dt(2024, 5, 6, 0, 0, 0));
    let hourly = timed_entry_time(&Timed::Hourly, &now, None, None);
    assert_eq!(hourly, dt(2024, 5, 6, 13, 0, 0));
    let minutely = timed_entry_time(&Timed::Minutely, &now, Some(15), None);
    assert_eq!(minutely, dt(2024, 5, 6, 13, 15, 0));
    let secondly = timed_entry_time(&Timed::Secondly, &now, None, Some(9));
    assert_eq!(secondly, dt(2024, 5, 6, 13, 37, 9));
}

#[test]
fn diary_id_identifier_round_trip() {
    let d = DiaryId { name: String::from("work"), time: dt(2024, 5, 6, 13, 0, 0) };
    let id = d.to_identifier().unwrap();
    assert_eq!(id.to_str(), "diary/work/2024/5/6/13/0/0");
    let back = DiaryId::from_storeid(&id).unwrap();
    assert_eq!(back.name, "work");
    assert_eq!(back.time, d.time);
    let other = Identifier::from_path("notes/a").unwrap();
    assert!(DiaryId::from_storeid(&other).is_none());
}

#[test]
fn youngest_picks_latest_of_named_diary() {
    let ids = vec![
        Identifier::from_path("diary/work/2024/5/6/9/0/0").unwrap(),
        Identifier::from_path("diary/work/2024/5/6/13/0/0").unwrap(),
        Identifier::from_path("diary/home/2024/5/7/0/0/0").unwrap(),
        Identifier::from_path("notes/a").unwrap(),
    ];
    let y = youngest(&ids, "work").unwrap();
    assert_eq!(y.name, "work");
    assert_eq!(y.time, dt(2024, 5, 6, 13, 0, 0));
    assert!(youngest(&ids, "absent").is_none());
}

#[test]
fn diary_names_lists_names() {
    let ids = vec![
        Identifier::from_path("diary/work/2024/5/6/9/0/0").unwrap(),
        Identifier::from_path("diary/home/2024/5/7/0/0/0").unwrap(),
        Identifier::from_path("notes/a").unwrap(),
    ];
    let names = diary_names(&ids);
    assert_eq!(names.len(), 2);
    assert!(names.iter().any(|n| n == "work"));
    assert!(names.iter().any(|n| n == "home"));
}

#[test]
fn store_diary_operations() {
    let mut store = Store::new(String::from("/tmp/store"));
    let t1 = dt(2024, 5, 6, 9, 0, 0);
    let t2 = dt(2024, 5, 6, 13, 0, 0);
    let h1 = store.new_entry_at("work", &t1).unwrap();
    store.release(h1).unwrap();
    let h2 = store.new_entry_at("work", &t2).unwrap();
    store.release(h2).unwrap();
    let y = store.get_youngest_entry_id("work").unwrap();
    assert_eq!(y.time, t2);
    let id = DiaryId { name: String::from("work"), time: t2 }.to_identifier().unwrap();
    let h = store.get(&id).unwrap().unwrap();
    assert_eq!(h.get_entry().read_bool("diary.is_diary_entry").unwrap(), Some(true));
    store.release(h).unwrap();
    let names = store.diary_names();
    assert_eq!(names.len(), 2);
    assert!(names.iter().all(|n| n == "work"));
}

#[test]
fn field_filters() {
    let mut e = Entry::empty();
    e.header_insert("note.name", Value::Str(String::from("x"))).unwrap();
    e.header_insert("note.count", Value::Int(5)).unwrap();
    let eq = FieldEq::new(String::from("note.name"), Value::Str(String::from("x")));
    assert_eq!(eq.filter(&e), Ok(true));
    let ne = FieldEq::new(String::from("note.name"), Value::Str(String::from("y")));
    assert_eq!(ne.filter(&e), Ok(false));
    let absent = FieldEq::new(String::from("nope"), Value::Int(1));
    assert_eq!(absent.filter(&e), Ok(false));
    let gt = FieldGt::new(String::from("note.count"), Value::Int(7));
    assert_eq!(gt.filter(&e), Ok(true));
    let gt2 = FieldGt::new(String::from("note.count"), Value::Int(5));
    assert_eq!(gt2.filter(&e), Ok(false));
    let gt3 = FieldGt::new(String::from("note.name"), Value::Int(7));
    assert_eq!(gt3.filter(&e), Ok(false));
}

#[test]
fn plain_viewer_renders() {
    let mut e = Entry::empty();
    e.header_insert("k", Value::Int(5)).unwrap();
    e.set_content(String::from("body"));
    let with_header = PlainViewer::new(true);
    assert_eq!(with_header.view_entry_text(&e), "tk1:ki5;e\nbody\n");
    let without = PlainViewer::new(false);
    assert_eq!(without.view_entry_text(&e), "body\n");
}

#[test]
fn link_processor_configuration() {
    let p = LinkProcessor::default();
    assert!(p.is_process_links());
    assert!(!p.is_create_targets());
    assert!(p.is_process_urls());
    assert!(!p.is_process_refs());
    let q = LinkProcessor::default()
        .process_links(false)
        .create_targets(true)
        .process_urls(false)
        .process_refs(true);
    assert!(!q.is_process_links());
    assert!(q.is_create_targets());
    assert!(!q.is_process_urls());
    assert!(q.is_process_refs());
}
