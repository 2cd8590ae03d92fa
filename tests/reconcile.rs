use mdown::chapter::{parse_number, ChapterMetadata};
use mdown::reconcile::{contains_record, reconcile};

fn ch(number: &str, updated_at: &str, id: &str) -> ChapterMetadata {
    ChapterMetadata::new(number, updated_at, id)
}

#[test]
fn reconcile_adds_fresh_chapter_in_number_order() {
    let existing = vec![ch("1", "t1", "a")];
    let fresh = vec![ch("1", "t1", "a"), ch("2", "t2", "b")];
    let r = reconcile(&existing, &fresh, &vec![]);
    assert_eq!(r, vec![ch("1", "t1", "a"), ch("2", "t2", "b")]);
}

#[test]
fn reconcile_sorts_by_numeric_value_not_text() {
    let existing = vec![ch("10", "t", "x"), ch("9", "t", "y")];
    let fresh = vec![ch("2", "t", "z")];
    let r = reconcile(&existing, &fresh, &vec![]);
    assert_eq!(r, vec![ch("2", "t", "z"), ch("9", "t", "y"), ch("10", "t", "x")]);
}

#[test]
fn reconcile_orders_non_numeric_numbers_as_zero() {
    let existing = vec![ch("3", "t", "a"), ch("12.5", "t", "b"), ch("0", "t", "c")];
    let r = reconcile(&existing, &vec![], &vec![]);
    assert_eq!(r, vec![ch("12.5", "t", "b"), ch("0", "t", "c"), ch("3", "t", "a")]);
}

#[test]
fn reconcile_drops_removed_records() {
    let existing = vec![ch("1", "t1", "a"), ch("2", "t2", "b")];
    let r = reconcile(&existing, &vec![], &vec![ch("2", "t2", "b")]);
    assert_eq!(r, vec![ch("1", "t1", "a")]);
}

#[test]
fn reconcile_keeps_removed_record_that_is_fresh_again() {
    let existing = vec![ch("1", "t1", "a"), ch("2", "t2", "b")];
    let r = reconcile(&existing, &vec![ch("2", "t2", "b")], &vec![ch("2", "t2", "b")]);
    assert_eq!(r, vec![ch("1", "t1", "a"), ch("2", "t2", "b")]);
}

#[test]
fn reconcile_removal_needs_the_whole_triple() {
    let existing = vec![ch("1", "t1", "a")];
    let r = reconcile(&existing, &vec![], &vec![ch("1", "t2", "a")]);
    assert_eq!(r, vec![ch("1", "t1", "a")]);
}

#[test]
fn reconcile_keeps_same_id_with_other_update_time() {
    let existing = vec![ch("1", "t1", "a")];
    let r = reconcile(&existing, &vec![ch("1", "t2", "a")], &vec![]);
    assert_eq!(r, vec![ch("1", "t1", "a"), ch("1", "t2", "a")]);
}

#[test]
fn reconcile_removes_duplicates() {
    let existing = vec![ch("1", "t", "a"), ch("1", "t", "a")];
    let fresh = vec![ch("1", "t", "a"), ch("2", "t", "b"), ch("2", "t", "b")];
    let r = reconcile(&existing, &fresh, &vec![]);
    assert_eq!(r, vec![ch("1", "t", "a"), ch("2", "t", "b")]);
}

#[test]
fn reconcile_of_nothing_is_empty() {
    let r = reconcile(&vec![], &vec![], &vec![]);
    assert!(r.is_empty());
}

#[test]
fn reconcile_twice_changes_nothing() {
    let existing = vec![ch("5", "t", "e"), ch("x", "t", "f"), ch("1", "t", "g")];
    let fresh = vec![ch("3", "t", "h"), ch("5", "t", "e")];
    let remove = vec![ch("1", "t", "g")];
    let once = reconcile(&existing, &fresh, &remove);
    let twice = reconcile(&once, &vec![], &vec![]);
    assert_eq!(once, twice);
    assert_eq!(once, vec![ch("x", "t", "f"), ch("3", "t", "h"), ch("5", "t", "e")]);
}

#[test]
fn reconcile_keeps_input_order_for_equal_numbers() {
    let existing = vec![ch("2", "t", "b"), ch("2", "t", "a")];
    let fresh = vec![ch("1", "t", "c"), ch("2", "t", "c")];
    let r = reconcile(&existing, &fresh, &vec![]);
    assert_eq!(r, vec![ch("1", "t", "c"), ch("2", "t", "b"), ch("2", "t", "a"), ch("2", "t", "c")]);
}

#[test]
fn contains_record_compares_all_fields() {
    let v = vec![ch("1", "t", "a")];
    assert!(contains_record(&v, &ch("1", "t", "a")));
    assert!(!contains_record(&v, &ch("1", "t", "b")));
}

#[test]
fn parse_number_follows_unsigned_parsing() {
    assert_eq!(parse_number("0"), Some(0));
    assert_eq!(parse_number("007"), Some(7));
    assert_eq!(parse_number("+5"), Some(5));
    assert_eq!(parse_number("4294967295"), Some(4294967295));
    assert_eq!(parse_number("4294967296"), None);
    assert_eq!(parse_number(""), None);
    assert_eq!(parse_number("+"), None);
    assert_eq!(parse_number("-1"), None);
    assert_eq!(parse_number("12.5"), None);
    assert_eq!(parse_number(" 1"), None);
}

#[test]
fn sort_number_defaults_to_zero() {
    assert_eq!(ch("42", "t", "a").sort_number(), 42);
    assert_eq!(ch("Extra", "t", "a").sort_number(), 0);
}

#[test]
fn chapter_display_string_lists_fields() {
    assert_eq!(
        ch("3", "2024-01-01", "abc").to_display_string(),
        "\"number\": 3, \"updatedAt\": 2024-01-01, \"id\": abc"
    );
}
