use arcdb::database::{Database, DatabaseVal, SetValType, StringValType};

fn rendered(db: &Database, key: &str) -> Option<String> {
    db.get(key).map(|v| v.to_string())
}

#[test]
fn empty_store_has_nothing() {
    let db = Database::init();
    assert!(db.get("k").is_none());
}

#[test]
fn update_string_then_get() {
    let mut db = Database::init();
    db.update_string("k", "v");
    assert_eq!(rendered(&db, "k").as_deref(), Some("v"));
    assert!(db.get("other").is_none());
}

#[test]
fn update_replaces_any_value() {
    let mut db = Database::init();
    db.update("k", DatabaseVal::SetVal(SetValType::from(&vec!["a", "b"])));
    assert_eq!(rendered(&db, "k").as_deref(), Some("a b"));
    db.update("k", DatabaseVal::StringVal(StringValType::from("t")));
    assert_eq!(rendered(&db, "k").as_deref(), Some("t"));
}

#[test]
fn update_or_insert_set_creates_merges_and_replaces() {
    let mut db = Database::init();
    db.update_or_insert_set("s", &vec!["a", "b"]);
    db.update_or_insert_set("s", &vec!["b", "c"]);
    assert_eq!(rendered(&db, "s").as_deref(), Some("a b c"));
    db.update_string("t", "text");
    db.update_or_insert_set("t", &vec!["x"]);
    assert_eq!(rendered(&db, "t").as_deref(), Some("x"));
}

#[test]
fn delete_present_and_absent() {
    let mut db = Database::init();
    db.update_string("a", "1");
    db.update_string("b", "2");
    assert!(db.delete("a").is_ok());
    assert!(db.get("a").is_none());
    assert_eq!(rendered(&db, "b").as_deref(), Some("2"));
    let err = db.delete("a").err().unwrap();
    assert_eq!(err.to_string(), "key not found");
}

#[test]
fn keys_are_exact_text() {
    let mut db = Database::init();
    db.update_string("k", "lower");
    db.update_string("K", "upper");
    assert_eq!(rendered(&db, "k").as_deref(), Some("lower"));
    assert_eq!(rendered(&db, "K").as_deref(), Some("upper"));
    assert!(db.get("k ").is_none());
}

#[test]
fn many_keys_stay_distinct() {
    let mut db = Database::init();
    for i in 0..50u32 {
        db.update_string(&format!("key{}", i), &format!("{}", i * 2));
    }
    for i in 0..50u32 {
        assert_eq!(rendered(&db, &format!("key{}", i)), Some(format!("{}", i * 2)));
    }
}

#[test]
fn string_value_round_trip() {
    let v = StringValType::from("hello world");
    assert_eq!(v.to_string(), "hello world");
    assert_eq!(DatabaseVal::StringVal(v).to_string(), "hello world");
}

#[test]
fn set_value_from_dedups_and_keeps_first_order() {
    let s = SetValType::from(&vec!["b", "a", "b", "c", "a"]);
    assert_eq!(s.to_string(), "b a c");
}

#[test]
fn set_value_add_skips_present_members() {
    let mut s = SetValType::from(&vec!["a"]);
    s.add(&vec!["a", "b"]);
    s.add(&vec![]);
    s.add(&vec!["c", "b"]);
    assert_eq!(s.to_string(), "a b c");
}

#[test]
fn empty_set_renders_empty() {
    let s = SetValType::from(&vec![]);
    assert_eq!(s.to_string(), "");
    assert_eq!(DatabaseVal::SetVal(s).to_string(), "");
}
