use mdown::naming::{get_manga_name, remove_marks, shorten_name, TitleData};

fn names(pairs: &[(&str, &str)]) -> Vec<(String, String)> {
    pairs.iter().map(|(k, v)| (k.to_string(), v.to_string())).collect()
}

#[test]
fn test_get_manga_name_returns_english_title_if_exists() {
    let title_data = TitleData { title: names(&[("en", "English Title")]), alt_titles: None };
    let result = get_manga_name(&title_data, "");
    assert_eq!(result, "English Title");
}

#[test]
fn test_get_manga_name_returns_english_title_if_exists_in_alt_titles() {
    let title_data = TitleData {
        title: vec![],
        alt_titles: Some(vec![names(&[("en", "English Title")])]),
    };
    let result = get_manga_name(&title_data, "");
    assert_eq!(result, "English Title");
}

#[test]
fn test_get_manga_name_returns_japanese_romanized_title_if_english_title_not_found() {
    let title_data = TitleData {
        title: names(&[("ja-ro", "Japanese Romanized Title")]),
        alt_titles: None,
    };
    let result = get_manga_name(&title_data, "");
    assert_eq!(result, "Japanese Romanized Title");
}

#[test]
fn test_get_manga_name_returns_first_english_title_found_in_alt_titles() {
    let title_data = TitleData {
        title: vec![],
        alt_titles: Some(vec![names(&[("en", "English Title")]), names(&[("fr", "French Title")])]),
    };
    let result = get_manga_name(&title_data, "");
    assert_eq!(result, "English Title");
}

#[test]
fn test_get_manga_name_returns_empty_string_if_title_in_alt_titles_but_no_english_language_available() {
    let title_data = TitleData {
        title: vec![],
        alt_titles: Some(vec![names(&[("fr", "French Title")])]),
    };
    let result = get_manga_name(&title_data, "");
    assert_eq!(result, "Unrecognized title");
}

#[test]
fn test_get_manga_name_returns_empty_string_if_title_in_alt_titles_but_no_language_available() {
    let title_data = TitleData { title: vec![], alt_titles: Some(vec![vec![]]) };
    let result = get_manga_name(&title_data, "");
    assert_eq!(result, "Unrecognized title");
}

#[test]
fn requested_language_comes_first() {
    let title_data = TitleData {
        title: names(&[("en", "English"), ("fr", "Francais")]),
        alt_titles: None,
    };
    assert_eq!(get_manga_name(&title_data, "fr"), "Francais");
}

#[test]
fn no_names_at_all_is_star() {
    let title_data = TitleData { title: vec![], alt_titles: None };
    assert_eq!(get_manga_name(&title_data, "en"), "*");
}

#[test]
fn later_alternative_title_found_through_merge() {
    let title_data = TitleData {
        title: vec![],
        alt_titles: Some(vec![
            names(&[("fr", "Un")]),
            names(&[("ja-ro", "Ichi")]),
            names(&[("ja-ro", "Ni")]),
        ]),
    };
    assert_eq!(get_manga_name(&title_data, "en"), "Ni");
}

#[test]
fn name_is_cleaned_of_quotes_question_marks_and_spaces() {
    let title_data = TitleData { title: names(&[("en", "  \"Why?\" Me  ")]), alt_titles: None };
    assert_eq!(get_manga_name(&title_data, "en"), "Why Me");
    assert_eq!(remove_marks("a\"b?c"), "abc");
}

#[test]
fn long_name_is_cut_at_seventy_bytes() {
    let long = "x".repeat(80);
    let title_data = TitleData { title: names(&[("en", long.as_str())]), alt_titles: None };
    assert_eq!(get_manga_name(&title_data, "en"), format!("{}__", "x".repeat(70)));
    assert_eq!(shorten_name(&"y".repeat(70)), "y".repeat(70));
    let wide = format!("{}é", "z".repeat(69));
    assert_eq!(shorten_name(&wide), format!("{}__", "z".repeat(69)));
}
