use mdown::feed::{page_records, FeedAction, FeedError, FeedMerger, FeedStatus};
use serde_json::Value;

fn page(start: u64, n: u64) -> Vec<Value> {
    (start..start + n).map(Value::from).collect()
}

fn body(n: u64) -> String {
    let items: Vec<String> = (0..n).map(|i| format!("{{\"id\": {}}}", i)).collect();
    format!("{{\"result\": \"ok\", \"data\": [{}]}}", items.join(","))
}

#[test]
fn pages_of_500_500_213_merge_to_1213_records() {
    let mut m = FeedMerger::new(0);
    assert_eq!(m.action(), FeedAction::Fetch(0));
    assert_eq!(m.accept_records(page(0, 500)), FeedAction::Fetch(500));
    assert_eq!(m.accept_records(page(500, 500)), FeedAction::Fetch(1000));
    assert_eq!(m.accept_records(page(1000, 213)), FeedAction::Done);
    assert_eq!(m.data.len(), 1213);
    assert_eq!(m.last_count, 213);
    for (i, v) in m.data.iter().enumerate() {
        assert_eq!(v.as_u64(), Some(i as u64));
    }
    assert_eq!(m.fetched_at.len(), 3);
}

#[test]
fn offsets_start_from_the_given_offset() {
    let mut m = FeedMerger::new(40);
    assert_eq!(m.accept_records(page(0, 500)), FeedAction::Fetch(540));
    assert_eq!(m.accept_records(page(0, 7)), FeedAction::Done);
    assert_eq!(m.data.len(), 507);
}

#[test]
fn empty_feed_is_done_with_count_zero() {
    let mut m = FeedMerger::new(0);
    assert_eq!(m.accept_response(true, &body(0)), FeedAction::Done);
    assert_eq!(m.data.len(), 0);
    assert_eq!(m.last_count, 0);
}

#[test]
fn responses_are_parsed_and_merged() {
    let mut m = FeedMerger::new(0);
    assert_eq!(m.accept_response(true, &body(500)), FeedAction::Fetch(500));
    assert_eq!(m.accept_response(true, &body(3)), FeedAction::Done);
    assert_eq!(m.data.len(), 503);
    assert_eq!(m.last_count, 3);
    assert_eq!(m.data[501].get("id").and_then(Value::as_u64), Some(1));
}

#[test]
fn first_page_failure_is_fatal() {
    let mut m = FeedMerger::new(0);
    assert_eq!(m.accept_response(false, ""), FeedAction::Fail(FeedError::Status));
    assert_eq!(m.status, FeedStatus::Failed(FeedError::Status));
    let mut m = FeedMerger::new(0);
    assert_eq!(m.accept_response(true, "not json"), FeedAction::Fail(FeedError::Json));
    let mut m = FeedMerger::new(0);
    assert_eq!(m.accept_response(true, "[1, 2]"), FeedAction::Fail(FeedError::Json));
}

#[test]
fn later_page_failure_retries_without_losing_pages() {
    let mut m = FeedMerger::new(0);
    assert_eq!(m.accept_records(page(0, 500)), FeedAction::Fetch(500));
    assert_eq!(m.accept_response(false, ""), FeedAction::Fetch(500));
    assert_eq!(m.accept_response(true, "{broken"), FeedAction::Fetch(500));
    assert_eq!(m.data.len(), 500);
    assert_eq!(m.accept_response(true, &body(1)), FeedAction::Done);
    assert_eq!(m.data.len(), 501);
}

#[test]
fn object_without_data_ends_the_feed() {
    let mut m = FeedMerger::new(0);
    assert_eq!(m.accept_response(true, "{\"result\": \"ok\"}"), FeedAction::Done);
    assert_eq!(m.last_count, 0);
}

#[test]
fn offset_past_32_bits_fails() {
    let mut m = FeedMerger::new(4294967000);
    assert_eq!(m.accept_records(page(0, 500)), FeedAction::Fail(FeedError::OffsetOutOfRange));
    assert_eq!(m.data.len(), 500);
}

#[test]
fn finished_merger_ignores_further_pages() {
    let mut m = FeedMerger::new(0);
    assert_eq!(m.accept_records(page(0, 2)), FeedAction::Done);
    assert_eq!(m.accept_records(page(0, 5)), FeedAction::Done);
    assert_eq!(m.data.len(), 2);
}

#[test]
fn request_url_names_title_and_offset() {
    let mut m = FeedMerger::new(0);
    assert_eq!(
        m.request_url("abc-123"),
        "https://api.mangadex.org/manga/abc-123/feed?limit=500&offset=0"
    );
    m.accept_records(page(0, 500));
    assert_eq!(
        m.request_url("abc-123"),
        "https://api.mangadex.org/manga/abc-123/feed?limit=500&offset=500"
    );
}

#[test]
fn page_records_reads_data_array() {
    assert_eq!(page_records(&body(4)).map(|v| v.len()), Some(4));
    assert_eq!(page_records("{}").map(|v| v.len()), Some(0));
    assert!(page_records("3").is_none());
    assert!(page_records("").is_none());
}

#[test]
fn decimal_string_writes_digits() {
    assert_eq!(mdown::text::decimal_string(0), "0");
    assert_eq!(mdown::text::decimal_string(1213), "1213");
    assert_eq!(mdown::text::decimal_string(4294967295), "4294967295");
}
