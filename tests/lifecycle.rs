use mdown::lifecycle::{cover_file_name, resolve_plan, TitleInfo, TitleRelation};
use mdown::naming::TitleData;

fn rel(kind: &str, file: Option<&str>) -> TitleRelation {
    TitleRelation { rel_type: kind.to_string(), file_name: file.map(str::to_string) }
}

fn info() -> TitleInfo {
    TitleInfo {
        names: TitleData { title: vec![("en".to_string(), "Some Title?".to_string())], alt_titles: None },
        original_language: "ja".to_string(),
        available_languages: vec!["en".to_string(), "fr".to_string()],
        description: Some("A story.".to_string()),
        relationships: vec![rel("author", None), rel("cover_art", Some("c.png"))],
    }
}

#[test]
fn plan_refuses_language_not_offered() {
    assert!(resolve_plan(&info(), "de", "*", "name").is_none());
}

#[test]
fn plan_names_folder_and_cover() {
    let p = resolve_plan(&info(), "en", "*", "name").unwrap();
    assert_eq!(p.name, "Some Title");
    assert_eq!(p.folder, "Some Title");
    assert_eq!(p.description, "A story.");
    assert_eq!(p.cover_file, Some("c.png".to_string()));
    assert_eq!(p.languages, vec!["en".to_string(), "fr".to_string()]);
}

#[test]
fn plan_uses_given_title_and_folder() {
    let mut i = info();
    i.description = None;
    i.relationships = vec![];
    let p = resolve_plan(&i, "ja", "Chosen", "library").unwrap();
    assert_eq!(p.name, "Chosen");
    assert_eq!(p.folder, "library");
    assert_eq!(p.description, "");
    assert_eq!(p.cover_file, None);
}

#[test]
fn cover_file_is_last_cover_relation() {
    let rels = vec![rel("cover_art", Some("a.jpg")), rel("manga", None), rel("cover_art", Some("b.jpg"))];
    assert_eq!(cover_file_name(&rels), "b.jpg");
    assert_eq!(cover_file_name(&vec![rel("cover_art", None)]), "");
    assert_eq!(cover_file_name(&vec![]), "");
}

#[test]
fn database_offset_reads_unsigned_numbers() {
    assert_eq!(mdown::lifecycle::database_offset("0"), Some(0));
    assert_eq!(mdown::lifecycle::database_offset("1500"), Some(1500));
    assert_eq!(mdown::lifecycle::database_offset("-1"), None);
    assert_eq!(mdown::lifecycle::database_offset("abc"), None);
}

#[test]
fn new_folder_removed_only_when_nothing_downloaded() {
    assert!(mdown::lifecycle::remove_new_folder(0, false));
    assert!(!mdown::lifecycle::remove_new_folder(0, true));
    assert!(!mdown::lifecycle::remove_new_folder(3, false));
}

#[test]
fn database_offset_stays_within_signed_range() {
    assert_eq!(mdown::lifecycle::database_offset("2147483647"), Some(2147483647));
    assert_eq!(mdown::lifecycle::database_offset("2147483648"), None);
    assert_eq!(mdown::lifecycle::database_offset("4294967295"), None);
}
