use microblog::store::{Cursor, StatusStore};

fn seeded(entries: &[(&str, &str, i64)]) -> StatusStore {
    let mut store = StatusStore::new();
    for (id, body, created) in entries {
        let r = store.create_at(String::from(*id), String::from(*body), *created);
        assert!(r.is_ok());
    }
    store
}

#[test]
fn list_on_empty_store_is_empty() {
    let store = StatusStore::new();
    let (page, next) = store.list(None, 5);
    assert!(page.is_empty());
    assert!(next.is_none());
}

#[test]
fn list_orders_created_descending_with_id_ascending_ties() {
    // inserted out of order on purpose
    let store = seeded(&[
        ("mm", "oldest", 10),
        ("bb", "tie two", 50),
        ("zz", "newest", 90),
        ("aa", "tie one", 50),
    ]);
    let (page, next) = store.list(None, 10);
    assert!(next.is_none());
    let ids: Vec<&str> = page.iter().map(|p| p.id.as_str()).collect();
    assert_eq!(ids, vec!["zz", "aa", "bb", "mm"]);
}

#[test]
fn pagination_concatenates_to_every_live_record_exactly_once() {
    let store = seeded(&[
        ("e", "post 5", 10),
        ("d", "post 4", 20),
        ("c", "post 3", 30),
        ("b", "post 2", 40),
        ("a", "post 1", 50),
    ]);
    let mut collected: Vec<String> = Vec::new();
    let mut cursor: Option<Cursor> = None;
    let mut rounds = 0;
    loop {
        let (page, next) = store.list(cursor.as_ref(), 2);
        assert!(page.len() <= 2);
        for p in &page {
            collected.push(p.id.clone());
        }
        rounds += 1;
        match next {
            Some(c) => cursor = Some(c),
            None => break,
        }
        assert!(rounds < 10, "pagination must terminate");
    }
    assert_eq!(rounds, 3);
    assert_eq!(collected, vec!["a", "b", "c", "d", "e"]);
}

#[test]
fn next_cursor_points_at_the_last_record_of_the_page() {
    let store = seeded(&[("b", "two", 10), ("a", "one", 20)]);
    let (page, next) = store.list(None, 1);
    assert_eq!(page.len(), 1);
    assert_eq!(page[0].id, "a");
    let cur = next.unwrap();
    assert_eq!(cur.created, 20);
    assert_eq!(cur.id, "a");
}

#[test]
fn a_cursor_resumes_strictly_after_its_position() {
    let store = seeded(&[("b", "two", 10), ("a", "one", 20), ("c", "tie", 20)]);
    // order: ("a", 20), ("c", 20), ("b", 10)
    let cursor = Cursor { created: 20, id: String::from("a") };
    let (page, next) = store.list(Some(&cursor), 10);
    let ids: Vec<&str> = page.iter().map(|p| p.id.as_str()).collect();
    assert_eq!(ids, vec!["c", "b"]);
    assert!(next.is_none());
}

#[test]
fn a_full_final_page_carries_no_cursor() {
    let store = seeded(&[("a", "one", 20), ("b", "two", 10)]);
    let (page, next) = store.list(None, 2);
    assert_eq!(page.len(), 2);
    assert!(next.is_none());
}

#[test]
fn deleted_records_vanish_from_later_pages() {
    let mut store = seeded(&[("c", "three", 10), ("b", "two", 20), ("a", "one", 30)]);
    let (page, next) = store.list(None, 1);
    assert_eq!(page[0].id, "a");
    let cursor = next.unwrap();
    store.delete_at("b", 100).unwrap();
    let (page2, next2) = store.list(Some(&cursor), 1);
    assert_eq!(page2.len(), 1);
    assert_eq!(page2[0].id, "c");
    assert!(next2.is_none());
}
