use mdown::getter::{resolve_group_metadata, GroupError};
use mdown::getter::record_group;
use mdown::text::TextMap;
use mdown::getter::{
    get_arg, get_attr_as_same_as_index, get_dat_path, get_db_path, get_folder_name,
    get_log_lock_path, get_log_path, get_metadata, get_query, get_scanlation_group,
    ChapterAttrResponse, ChapterRelResponse, ChapterResponse,
};
use mdown::resolute::{move_lines, resolve_move, resolve_skip, title};

#[test]
fn paths_sit_beside_the_executable() {
    assert_eq!(get_dat_path("C:\\bin"), "C:\\bin\\dat.json");
    assert_eq!(get_db_path("C:\\bin"), "C:\\bin\\resources.db");
    assert_eq!(get_log_path("C:\\bin"), "C:\\bin\\log.json");
    assert_eq!(get_log_lock_path("C:\\bin"), "C:\\bin\\log.lock");
}

#[test]
fn query_parameters_are_read_from_target() {
    let parts = vec!["GET", "/manga?id=abc&lang=en&id=def", "HTTP/1.1"];
    let q = get_query(&parts);
    assert_eq!(
        q.pairs,
        vec![("id".to_string(), "def".to_string()), ("lang".to_string(), "en".to_string())]
    );
}

#[test]
fn query_without_question_mark_has_one_empty_pair() {
    let q = get_query(&vec!["GET", "/index"]);
    assert_eq!(q.pairs, vec![(String::new(), String::new())]);
    let q = get_query(&vec!["GET", "/x?flag&k=v=w"]);
    assert_eq!(
        q.pairs,
        vec![("flag".to_string(), String::new()), ("k".to_string(), "v".to_string())]
    );
}

#[test]
fn folder_name_defaults_to_title() {
    assert_eq!(get_folder_name("My Title", "name"), "My Title");
    assert_eq!(get_folder_name("My Title", "downloads"), "downloads");
}

#[test]
fn empty_argument_means_any() {
    assert_eq!(get_arg(""), "*");
    assert_eq!(get_arg("en"), "en");
}

#[test]
fn skip_unless_filter_matches() {
    assert!(!resolve_skip("*".to_string(), "en"));
    assert!(!resolve_skip("en".to_string(), "en"));
    assert!(resolve_skip("fr".to_string(), "en"));
}

#[test]
fn title_loses_one_trailing_dot() {
    assert_eq!(title("Title.."), "Title.");
    assert_eq!(title("Title"), "Title");
    assert_eq!(title(""), "");
}

#[test]
fn scanlation_group_is_first_group_relation() {
    let rels = vec![
        ChapterRelResponse { id: "m1".to_string(), rel_type: "manga".to_string() },
        ChapterRelResponse { id: "g1".to_string(), rel_type: "scanlation_group".to_string() },
        ChapterRelResponse { id: "g2".to_string(), rel_type: "scanlation_group".to_string() },
    ];
    assert_eq!(get_scanlation_group(&rels), Some("g1".to_string()));
    assert_eq!(get_scanlation_group(&rels[..1].iter().map(|r| ChapterRelResponse { id: r.id.clone(), rel_type: r.rel_type.clone() }).collect()), None);
}

#[test]
fn chapter_metadata_defaults_missing_texts() {
    let c = ChapterResponse {
        id: "c".to_string(),
        attributes: ChapterAttrResponse {
            translated_language: Some("en".to_string()),
            pages: 20,
            chapter: None,
            title: Some("Start".to_string()),
        },
        relationships: vec![],
    };
    let (attrs, lang, pages, number, name) = get_metadata(&c);
    assert_eq!(attrs.pages, 20);
    assert_eq!(lang, "en");
    assert_eq!(pages, 20);
    assert_eq!(number, "");
    assert_eq!(name, "Start");
}

#[test]
fn index_lookup_returns_item() {
    let v = vec!["a".to_string(), "b".to_string()];
    assert_eq!(get_attr_as_same_as_index(&v, 1), "b");
}

#[test]
fn history_grows_then_scrolls() {
    let hist = vec!["a".to_string(), "b".to_string(), "c".to_string()];
    let (moves, hist) = resolve_move(0, hist, 2, 1, 10);
    assert_eq!(moves, 1);
    assert_eq!(hist.len(), 3);
    let (moves, hist) = resolve_move(7, hist, 2, 1, 10);
    assert_eq!(moves, 7);
    assert_eq!(hist, vec!["b".to_string(), "c".to_string()]);
}

#[test]
fn history_lines_are_padded_to_width() {
    let hist = vec!["ab".to_string(), "abcdef".to_string(), "zz".to_string()];
    let lines = move_lines(2, &hist, 3, 4);
    assert_eq!(lines, vec![(3, "ab  ".to_string()), (4, "abcdef".to_string())]);
    assert_eq!(move_lines(5, &hist, 0, 0).len(), 3);
    assert!(move_lines(0, &hist, 0, 4).is_empty());
}

#[test]
fn group_metadata_reads_name_and_website() {
    let body = "{\"data\": {\"attributes\": {\"name\": \"Group\", \"website\": \"https://g.example\"}}}";
    assert_eq!(
        resolve_group_metadata(body),
        Ok(("Group".to_string(), "https://g.example".to_string()))
    );
    let body = "{\"data\": {\"attributes\": {\"name\": \"Group\"}}}";
    assert_eq!(resolve_group_metadata(body), Ok(("Group".to_string(), "None".to_string())));
    let body = "{\"data\": {\"attributes\": {}}}";
    assert_eq!(resolve_group_metadata(body), Ok(("Unknown".to_string(), String::new())));
    assert_eq!(resolve_group_metadata("[1]"), Ok(("Unknown".to_string(), String::new())));
    assert_eq!(resolve_group_metadata("{\"data\": {}}"), Err(GroupError::NotFound));
    assert_eq!(resolve_group_metadata("{}"), Err(GroupError::NotFound));
    assert_eq!(resolve_group_metadata("nope"), Err(GroupError::Json));
}

#[test]
fn new_named_group_is_recorded_once() {
    let mut groups = TextMap::new();
    let line = record_group(&mut groups, &"g1".to_string(), &"Group".to_string(), "site");
    assert_eq!(line, Some("Group - site\n".to_string()));
    assert_eq!(record_group(&mut groups, &"g1".to_string(), &"Group".to_string(), "site"), None);
    assert_eq!(record_group(&mut groups, &"g2".to_string(), &"Unknown".to_string(), ""), None);
    assert_eq!(groups.pairs, vec![("g1".to_string(), "Group".to_string())]);
    assert!(groups.contains_key("g1"));
    assert!(!groups.contains_key("g2"));
}
