use mdown::catalog::{check_entry, language_available, Catalog, EntryCheck, MangaEntry};
use mdown::chapter::ChapterMetadata;
use mdown::text::TextMap;

fn ch(number: &str, updated_at: &str, id: &str) -> ChapterMetadata {
    ChapterMetadata::new(number, updated_at, id)
}

fn entry(id: &str, name: &str, chapters: Vec<ChapterMetadata>, cover: bool) -> MangaEntry {
    MangaEntry {
        id: id.to_string(),
        name: name.to_string(),
        mwd: format!("C:\\manga\\{}", name),
        cover,
        date: vec!["2024-01-01 00:00:00".to_string()],
        available_languages: vec!["en".to_string()],
        current_language: "en".to_string(),
        chapters,
    }
}

fn check(dir_exists: bool, cover_present: bool, fresh: Vec<ChapterMetadata>) -> EntryCheck {
    EntryCheck { dir_exists, refreshed: true, cover_present, fresh, to_remove: vec![] }
}

#[test]
fn pass_removes_entry_whose_directory_is_gone_and_processes_the_rest() {
    let mut catalog = Catalog::new("0.1.0");
    catalog.entries.push(entry("id-a", "A", vec![ch("1", "t", "a1")], true));
    catalog.entries.push(entry("id-b", "B", vec![ch("1", "t", "b1")], true));
    catalog.entries.push(entry("id-c", "C", vec![], false));
    let checks = vec![
        check(false, true, vec![]),
        check(true, true, vec![ch("2", "t", "b2")]),
        check(true, false, vec![ch("1", "t", "c1")]),
    ];
    let mut dates = TextMap::new();
    catalog.resolve_check(&checks, &mut dates, false);
    assert_eq!(catalog.version, "0.1.0");
    let names: Vec<&str> = catalog.entries.iter().map(|e| e.name.as_str()).collect();
    assert_eq!(names, vec!["B", "C"]);
    assert_eq!(catalog.entries[0].chapters, vec![ch("1", "t", "b1"), ch("2", "t", "b2")]);
    assert_eq!(catalog.entries[1].chapters, vec![ch("1", "t", "c1")]);
}

#[test]
fn pass_prunes_entry_without_chapters_or_cover() {
    let mut catalog = Catalog::new("1");
    catalog.entries.push(entry("id-a", "A", vec![ch("1", "t", "a1")], false));
    let checks = vec![EntryCheck {
        dir_exists: true,
        refreshed: true,
        cover_present: false,
        fresh: vec![],
        to_remove: vec![ch("1", "t", "a1")],
    }];
    let mut dates = TextMap::new();
    catalog.resolve_check(&checks, &mut dates, true);
    assert!(catalog.entries.is_empty());
}

#[test]
fn pass_keeps_entry_with_cover_but_no_chapters() {
    let mut catalog = Catalog::new("1");
    catalog.entries.push(entry("id-a", "A", vec![], false));
    let mut dates = TextMap::new();
    catalog.resolve_check(&vec![check(true, true, vec![])], &mut dates, true);
    assert_eq!(catalog.entries.len(), 1);
    assert!(catalog.entries[0].cover);
}

#[test]
fn cover_flag_changes_only_when_updating() {
    let mut e = entry("id-a", "A", vec![ch("1", "t", "a")], false);
    let mut dates = TextMap::new();
    assert!(check_entry(&mut e, &check(true, true, vec![]), &mut dates, false));
    assert!(!e.cover);
    assert!(check_entry(&mut e, &check(true, true, vec![]), &mut dates, true));
    assert!(e.cover);
}

#[test]
fn pass_indexes_persisted_chapter_dates() {
    let mut catalog = Catalog::new("1");
    catalog.entries.push(entry("id-a", "A", vec![ch("1", "d1", "a"), ch("2", "d2", "b")], true));
    catalog.entries.push(entry("id-b", "B", vec![ch("1", "d3", "c")], true));
    catalog.entries.push(entry("id-c", "C", vec![ch("9", "d9", "d")], true));
    let mut checks = vec![
        check(true, true, vec![]),
        check(true, true, vec![]),
        check(true, true, vec![]),
    ];
    checks[2].refreshed = false;
    let mut dates = TextMap::new();
    catalog.resolve_check(&checks, &mut dates, false);
    assert_eq!(
        dates.pairs,
        vec![("1".to_string(), "d3".to_string()), ("2".to_string(), "d2".to_string())]
    );
}

#[test]
fn resolve_dat_reconciles_into_entry_with_same_id() {
    let mut catalog = Catalog::new("1");
    catalog.entries.push(entry("id-a", "A", vec![ch("2", "t", "a2")], true));
    catalog.entries.push(entry("id-b", "B", vec![ch("1", "t", "b1")], true));
    let resolved = entry("id-a", "A renamed", vec![ch("1", "t", "a1"), ch("2", "t", "a2")], true);
    catalog.resolve_dat(resolved);
    assert_eq!(catalog.entries.len(), 2);
    assert_eq!(catalog.entries[0].name, "A");
    assert_eq!(catalog.entries[0].chapters, vec![ch("1", "t", "a1"), ch("2", "t", "a2")]);
    assert_eq!(catalog.entries[1].chapters, vec![ch("1", "t", "b1")]);
}

#[test]
fn resolve_dat_adds_new_title_with_sorted_chapters() {
    let mut catalog = Catalog::new("1");
    let resolved = entry("id-n", "N", vec![ch("3", "t", "c"), ch("1", "t", "a"), ch("3", "t", "c")], false);
    catalog.resolve_dat(resolved);
    assert_eq!(catalog.entries.len(), 1);
    assert_eq!(catalog.entries[0].chapters, vec![ch("1", "t", "a"), ch("3", "t", "c")]);
}

#[test]
fn resolve_dat_skips_title_with_nothing_captured() {
    let mut catalog = Catalog::new("1");
    catalog.resolve_dat(entry("id-n", "N", vec![], false));
    assert!(catalog.entries.is_empty());
    catalog.resolve_dat(entry("id-n", "N", vec![], true));
    assert_eq!(catalog.entries.len(), 1);
}

#[test]
fn language_must_be_original_or_translated() {
    let available = vec!["en".to_string(), "fr".to_string()];
    assert!(language_available("*", "ja", &available));
    assert!(language_available("ja", "ja", &available));
    assert!(language_available("fr", "ja", &available));
    assert!(!language_available("de", "ja", &available));
    assert!(!language_available("", "ja", &available));
}

#[test]
fn text_map_replaces_values_in_place() {
    let mut m = TextMap::new();
    m.set(&"a".to_string(), &"1".to_string());
    m.set(&"b".to_string(), &"2".to_string());
    m.set(&"a".to_string(), &"3".to_string());
    assert_eq!(m.pairs, vec![("a".to_string(), "3".to_string()), ("b".to_string(), "2".to_string())]);
}

#[test]
fn resolve_dat_appends_fetch_times_to_matched_entry() {
    let mut catalog = Catalog::new("1");
    catalog.entries.push(entry("id-a", "A", vec![ch("1", "t", "a1")], true));
    let mut resolved = entry("id-a", "A", vec![], true);
    resolved.date = vec!["2024-02-02 10:00:00".to_string()];
    catalog.resolve_dat(resolved);
    assert_eq!(
        catalog.entries[0].date,
        vec!["2024-01-01 00:00:00".to_string(), "2024-02-02 10:00:00".to_string()]
    );
}
