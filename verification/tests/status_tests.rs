use microblog::idgen::ID_LEN;
use microblog::status::{body_is_valid, StatusPublic, StatusRecord, MAX_BODY_LEN};

#[test]
fn synchronous_test() {
    assert!(true, "true is truthful; write more tests");
}

#[test]
fn asynchronous_test() {
    assert!(!false, "false is false; write more tests");
}

#[test]
fn new_record_has_fresh_id_and_equal_stamps() {
    let rec = StatusRecord::new(String::from("hello world"));
    assert_eq!(rec.body, "hello world");
    assert_eq!(rec.created, rec.modified);
    assert!(rec.deleted.is_none());
    assert_eq!(rec.id.chars().count(), ID_LEN);
    assert!(rec.id.chars().all(|c| c.is_ascii_alphanumeric() || c == '_' || c == '-'));
}

#[test]
fn two_generated_ids_differ() {
    let a = StatusRecord::new(String::from("one"));
    let b = StatusRecord::new(String::from("two"));
    assert_ne!(a.id, b.id);
}

#[test]
fn projection_keeps_the_four_public_fields() {
    let rec = StatusRecord::new(String::from("a post"));
    let id = rec.id.clone();
    let created = rec.created;
    let modified = rec.modified;
    let p = StatusPublic::from(rec);
    assert_eq!(p.id, id);
    assert_eq!(p.body, "a post");
    assert_eq!(p.created, created);
    assert_eq!(p.modified, modified);
}

#[test]
fn blank_bodies_are_invalid() {
    assert!(!body_is_valid(""));
    assert!(!body_is_valid("   "));
    assert!(!body_is_valid(" \t\r\n "));
}

#[test]
fn bodies_of_exotic_whitespace_are_blank_too() {
    // vertical tab and form feed
    assert!(!body_is_valid("\u{000B}\u{000C}"));
    // next line and no-break space
    assert!(!body_is_valid("\u{0085}\u{00A0}"));
    // ogham space mark, em space, line and paragraph separators
    assert!(!body_is_valid("\u{1680}\u{2003}\u{2028}\u{2029}"));
    // narrow no-break, medium mathematical, ideographic space
    assert!(!body_is_valid("\u{202F}\u{205F}\u{3000}"));
    // agreement with what str::trim recognises
    assert_eq!("\u{000B}\u{000C}\u{0085}\u{00A0}".trim(), "");
}

#[test]
fn whitespace_between_letters_does_not_blank_a_body() {
    assert!(body_is_valid("a\u{00A0}b"));
    assert!(body_is_valid("\u{3000}x\u{3000}"));
    // a zero-width space is not White_Space and carries content
    assert!(body_is_valid("\u{200B}"));
    assert!(!"\u{200B}".trim().is_empty());
}

#[test]
fn ordinary_bodies_are_valid() {
    assert!(body_is_valid("x"));
    assert!(body_is_valid("  padded  "));
    assert!(body_is_valid(&"a".repeat(MAX_BODY_LEN)));
}

#[test]
fn oversized_bodies_are_invalid() {
    assert!(!body_is_valid(&"a".repeat(MAX_BODY_LEN + 1)));
}
