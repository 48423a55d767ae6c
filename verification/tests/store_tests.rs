use microblog::store::{StatusStore, StoreError};

fn seeded(entries: &[(&str, &str, i64)]) -> StatusStore {
    let mut store = StatusStore::new();
    for (id, body, created) in entries {
        let r = store.create_at(String::from(*id), String::from(*body), *created);
        assert!(r.is_ok());
    }
    store
}

#[test]
fn create_then_read_round_trip() {
    let mut store = StatusStore::new();
    let p = store
        .create_at(String::from("id-one"), String::from("first post!"), 100)
        .unwrap();
    assert_eq!(p.id, "id-one");
    assert_eq!(p.body, "first post!");
    assert_eq!(p.created, 100);
    assert_eq!(p.modified, 100);

    let q = store.read("id-one").unwrap();
    assert_eq!(q.id, "id-one");
    assert_eq!(q.body, "first post!");
    assert_eq!(q.created, 100);
    assert_eq!(q.modified, 100);
}

#[test]
fn create_with_random_id_is_readable() {
    let mut store = StatusStore::new();
    let p = store.create(String::from("drawn id")).unwrap();
    assert_eq!(p.id.chars().count(), 21);
    let q = store.read(&p.id).unwrap();
    assert_eq!(q.body, "drawn id");
    assert_eq!(q.created, q.modified);
}

#[test]
fn create_rejects_empty_and_blank_bodies() {
    let mut store = StatusStore::new();
    let r = store.create(String::new());
    assert!(matches!(r, Err(StoreError::InvalidInput)));
    let r = store.create(String::from(" \t\n"));
    assert!(matches!(r, Err(StoreError::InvalidInput)));
    let r = store.create_at(String::from("x"), String::from("   "), 5);
    assert!(matches!(r, Err(StoreError::InvalidInput)));
    // whitespace beyond the ASCII four is still blank
    let r = store.create(String::from("\u{000B}"));
    assert!(matches!(r, Err(StoreError::InvalidInput)));
    let r = store.create_at(String::from("y"), String::from("\u{00A0}\u{2003}"), 5);
    assert!(matches!(r, Err(StoreError::InvalidInput)));
    // nothing was persisted
    let (page, next) = store.list(None, 10);
    assert!(page.is_empty());
    assert!(next.is_none());
}

#[test]
fn create_rejects_oversized_bodies() {
    let mut store = StatusStore::new();
    let r = store.create_at(String::from("x"), "a".repeat(501), 5);
    assert!(matches!(r, Err(StoreError::InvalidInput)));
}

#[test]
fn create_refuses_a_colliding_id() {
    let mut store = seeded(&[("dup", "first", 10)]);
    let r = store.create_at(String::from("dup"), String::from("second"), 20);
    assert!(matches!(r, Err(StoreError::Internal)));
    // the original record is untouched
    let q = store.read("dup").unwrap();
    assert_eq!(q.body, "first");
}

#[test]
fn read_missing_id_is_not_found() {
    let store = StatusStore::new();
    assert!(matches!(store.read("nope"), Err(StoreError::NotFound)));
}

#[test]
fn update_missing_and_tombstoned_are_not_found() {
    let mut store = seeded(&[("gone", "soon deleted", 10)]);
    let r = store.update_at("never", String::from("new body"), None, 20);
    assert!(matches!(r, Err(StoreError::NotFound)));

    store.delete_at("gone", 15).unwrap();
    let r = store.update_at("gone", String::from("new body"), None, 20);
    assert!(matches!(r, Err(StoreError::NotFound)));
}

#[test]
fn update_rejects_invalid_bodies() {
    let mut store = seeded(&[("id", "fine", 10)]);
    let r = store.update_at("id", String::from("  "), None, 20);
    assert!(matches!(r, Err(StoreError::InvalidInput)));
    let r = store.update_at("id", String::from("\u{000C}\u{202F}"), None, 20);
    assert!(matches!(r, Err(StoreError::InvalidInput)));
    assert_eq!(store.read("id").unwrap().body, "fine");
}

#[test]
fn optimistic_guard_accepts_fresh_and_refuses_stale() {
    let mut store = seeded(&[("id", "v1", 100)]);
    let p = store
        .update_at("id", String::from("v2"), Some(100), 200)
        .unwrap();
    assert_eq!(p.body, "v2");
    assert_eq!(p.modified, 200);
    assert_eq!(p.created, 100);

    // the expectation 100 is now stale
    let r = store.update_at("id", String::from("v3"), Some(100), 300);
    assert!(matches!(r, Err(StoreError::Conflict)));
    let q = store.read("id").unwrap();
    assert_eq!(q.body, "v2");
    assert_eq!(q.modified, 200);
}

#[test]
fn update_advances_the_stamp_even_when_the_clock_stalls() {
    let mut store = seeded(&[("id", "v1", 100)]);
    // the clock reads 40, behind the record's stamp of 100
    let p = store
        .update_at("id", String::from("v2"), Some(100), 40)
        .unwrap();
    assert_eq!(p.modified, 101);
    assert_eq!(p.created, 100);
}

#[test]
fn update_without_expectation_is_last_writer_wins() {
    let mut store = seeded(&[("id", "v1", 100)]);
    store.update_at("id", String::from("v2"), None, 200).unwrap();
    let p = store.update_at("id", String::from("v3"), None, 300).unwrap();
    assert_eq!(p.body, "v3");
    assert_eq!(p.modified, 300);
}

#[test]
fn delete_succeeds_once_then_everything_is_not_found() {
    let mut store = seeded(&[("id", "doomed", 100), ("other", "stays", 90)]);
    assert!(store.delete_at("id", 150).is_ok());

    assert!(matches!(store.delete_at("id", 160), Err(StoreError::NotFound)));
    assert!(matches!(store.read("id"), Err(StoreError::NotFound)));
    let r = store.update_at("id", String::from("no"), None, 170);
    assert!(matches!(r, Err(StoreError::NotFound)));

    // list never includes the tombstoned record
    let (page, next) = store.list(None, 10);
    assert_eq!(page.len(), 1);
    assert_eq!(page[0].id, "other");
    assert!(next.is_none());
}

#[test]
fn delete_missing_id_is_not_found() {
    let mut store = StatusStore::new();
    assert!(matches!(store.delete_at("nope", 5), Err(StoreError::NotFound)));
    assert!(matches!(store.delete("nope"), Err(StoreError::NotFound)));
}

#[test]
fn clock_drawing_update_and_delete_work() {
    let mut store = StatusStore::new();
    let p = store.create(String::from("v1")).unwrap();
    let q = store.update(&p.id, String::from("v2"), None).unwrap();
    assert_eq!(q.body, "v2");
    assert!(q.modified > p.modified);
    assert_eq!(q.created, p.created);
    store.delete(&p.id).unwrap();
    assert!(matches!(store.read(&p.id), Err(StoreError::NotFound)));
}
