use mdown::archive::{first_image, image_positions};
use mdown::archive::{
    check_for_metadata_saver, extract_metadata, extract_representative_image,
    has_image_extension, is_image_name, pack, preview_candidates, preview_images,
    saver_mismatch, ArchiveError, ArchiveItem, ArchiveMetadata, METADATA_ENTRY,
};

fn file(name: &str, content: &[u8]) -> ArchiveItem {
    ArchiveItem { name: name.to_string(), content: Some(content.to_vec()) }
}

fn dir(name: &str) -> ArchiveItem {
    ArchiveItem { name: name.to_string(), content: None }
}

fn metadata() -> ArchiveMetadata {
    ArchiveMetadata {
        language: "en".to_string(),
        saver: "false".to_string(),
        scanlation_group: "group \"7\"".to_string(),
        chapter: "12.5".to_string(),
    }
}

#[test]
fn packed_metadata_reads_back() {
    let m = metadata();
    let items = vec![
        dir(""),
        file("001.png", b"png-bytes"),
        dir("extra"),
        file(METADATA_ENTRY, m.to_json().as_bytes()),
    ];
    let bytes = pack(&items).unwrap();
    assert_eq!(extract_metadata(bytes).unwrap(), m);
}

#[test]
fn metadata_json_is_a_json_object() {
    let text = metadata().to_json();
    assert_eq!(
        text,
        "{\"language\":\"en\",\"saver\":\"false\",\"scanlation_group\":\"group \\\"7\\\"\",\"chapter\":\"12.5\"}"
    );
}

#[test]
fn missing_metadata_is_not_found() {
    let bytes = pack(&vec![file("a.png", b"x")]).unwrap();
    assert_eq!(extract_metadata(bytes), Err(ArchiveError::NotFound));
    let bytes = pack(&vec![file(METADATA_ENTRY, b"not json")]).unwrap();
    assert_eq!(extract_metadata(bytes), Err(ArchiveError::NotFound));
    let bytes = pack(&vec![file(METADATA_ENTRY, b"{\"language\":\"en\"}")]).unwrap();
    assert_eq!(extract_metadata(bytes), Err(ArchiveError::NotFound));
}

#[test]
fn bytes_that_are_no_archive_fail() {
    assert_eq!(extract_metadata(b"plain".to_vec()), Err(ArchiveError::Zip));
    assert_eq!(extract_representative_image(vec![]), Err(ArchiveError::Zip));
}

#[test]
fn representative_image_is_first_image_entry() {
    let items = vec![
        file("_metadata", b"{}"),
        file("notes.txt", b"text"),
        file("002.JPG", b"second"),
        file("003.png", b"third"),
    ];
    let bytes = pack(&items).unwrap();
    assert_eq!(extract_representative_image(bytes).unwrap(), b"second".to_vec());
}

#[test]
fn archive_without_images_has_no_representative() {
    let bytes = pack(&vec![file("a.txt", b"x"), dir("d")]).unwrap();
    assert_eq!(extract_representative_image(bytes), Err(ArchiveError::NotFound));
}

#[test]
fn image_names_by_extension() {
    assert!(is_image_name("page.PNG"));
    assert!(is_image_name("a.b.webp"));
    assert!(is_image_name("x.Jpeg"));
    assert!(is_image_name("png"));
    assert!(!is_image_name("image.png.txt"));
    assert!(!is_image_name(""));
    assert!(has_image_extension("cover.gif"));
    assert!(!has_image_extension("cover.GIF"));
    assert!(has_image_extension("photo.bmp"));
}

#[test]
fn saver_mismatch_compares_recorded_flag() {
    assert!(saver_mismatch("true", false));
    assert!(saver_mismatch("false", true));
    assert!(!saver_mismatch("true", true));
    assert!(!saver_mismatch("false", false));
    assert!(!saver_mismatch("yes", true));
}

#[test]
fn saver_check_reads_archive_metadata() {
    let bytes = pack(&vec![file(METADATA_ENTRY, metadata().to_json().as_bytes())]).unwrap();
    assert_eq!(check_for_metadata_saver(bytes.clone(), true), Ok(true));
    assert_eq!(check_for_metadata_saver(bytes, false), Ok(false));
}

#[test]
fn preview_candidates_take_cbz_among_first_ten() {
    let mut paths: Vec<String> = (0..12).map(|i| format!("c{}.cbz", i)).collect();
    paths[1] = "c1.zip".to_string();
    paths[3] = "cbz".to_string();
    let r = preview_candidates(&paths);
    assert_eq!(r, vec!["c0.cbz", "c2.cbz", "c4.cbz", "c5.cbz", "c6.cbz", "c7.cbz", "c8.cbz", "c9.cbz"]);
}

#[test]
fn preview_images_sample_all_archives() {
    let a = pack(&vec![file("1.png", b"a1"), file("x.txt", b"t"), file("2.png", b"a2")]).unwrap();
    let b = pack(&vec![file("1.jpg", b"b1")]).unwrap();
    let mut r = preview_images(vec![a.clone(), b.clone()], 10).unwrap();
    r.sort();
    assert_eq!(r, vec![b"a1".to_vec(), b"a2".to_vec(), b"b1".to_vec()]);
    let r = preview_images(vec![a, b], 2).unwrap();
    assert_eq!(r.len(), 2);
    assert_eq!(preview_images(vec![b"junk".to_vec()], 2), Err(ArchiveError::Zip));
}

#[test]
fn image_positions_and_first_image() {
    let names: Vec<String> = ["_metadata", "01.PNG", "notes.txt", "02.webp"]
        .iter()
        .map(|s| s.to_string())
        .collect();
    assert_eq!(first_image(&names), Some(1));
    assert_eq!(image_positions(&names), vec![1, 3]);
    let none: Vec<String> = vec!["a.txt".to_string()];
    assert_eq!(first_image(&none), None);
    assert!(image_positions(&none).is_empty());
}

#[test]
fn directory_names_get_one_trailing_slash() {
    let bytes = pack(&vec![dir("a"), dir("b/"), file("b/x.png", b"x")]).unwrap();
    assert_eq!(extract_representative_image(bytes.clone()).unwrap(), b"x".to_vec());
    let mut names = Vec::new();
    let mut archive = zip::ZipArchive::new(std::io::Cursor::new(bytes)).unwrap();
    for i in 0..archive.len() {
        names.push(archive.by_index(i).unwrap().name().to_string());
    }
    assert_eq!(names, vec!["a/", "b/", "b/x.png"]);
}

#[test]
fn metadata_entry_must_be_utf8_text() {
    let bytes = pack(&vec![file(METADATA_ENTRY, &[0xff, 0xfe])]).unwrap();
    assert_eq!(extract_metadata(bytes), Err(ArchiveError::NotFound));
}

#[test]
fn metadata_json_escapes_control_characters() {
    let m = ArchiveMetadata {
        language: "a\tb".to_string(),
        saver: "x\u{1}".to_string(),
        scanlation_group: "back\\slash".to_string(),
        chapter: "1".to_string(),
    };
    assert_eq!(
        m.to_json(),
        "{\"language\":\"a\\tb\",\"saver\":\"x\\u0001\",\"scanlation_group\":\"back\\\\slash\",\"chapter\":\"1\"}"
    );
}

#[test]
fn saver_check_without_saver_field_is_no_mismatch() {
    let bytes = pack(&vec![file(METADATA_ENTRY, b"{\"language\":\"en\"}")]).unwrap();
    assert_eq!(check_for_metadata_saver(bytes, true), Ok(false));
    let bytes = pack(&vec![file(METADATA_ENTRY, b"{\"saver\":\"maybe\"}")]).unwrap();
    assert_eq!(check_for_metadata_saver(bytes, true), Ok(false));
    let bytes = pack(&vec![file(METADATA_ENTRY, b"{\"saver\":\"true\"}")]).unwrap();
    assert_eq!(check_for_metadata_saver(bytes, false), Ok(true));
    let bytes = pack(&vec![file(METADATA_ENTRY, b"[1]")]).unwrap();
    assert_eq!(check_for_metadata_saver(bytes, false), Err(ArchiveError::NotFound));
    let bytes = pack(&vec![file("other", b"{}")]).unwrap();
    assert_eq!(check_for_metadata_saver(bytes, false), Err(ArchiveError::NotFound));
}

#[test]
fn packed_archive_is_checked_by_reading_it_back() {
    let tricky = format!("aPK\u{6}\u{7}\0\0\0\0{}\u{1}\0\0\0", "\0".repeat(8));
    match pack(&vec![file("first.png", b"1"), file(&tricky, b"2")]) {
        Ok(bytes) => assert_eq!(extract_representative_image(bytes), Ok(b"1".to_vec())),
        Err(e) => assert_eq!(e, ArchiveError::Zip),
    }
}
