use folder_organizer::names::{candidate, decimal_text, extension, find_last_dot, stem};

#[test]
fn extension_is_the_text_after_the_last_dot() {
    assert_eq!(extension("photo.JPG"), Some("JPG".to_string()));
    assert_eq!(extension("archive.tar.gz"), Some("gz".to_string()));
    assert_eq!(extension("a.b"), Some("b".to_string()));
}

#[test]
fn name_without_dot_has_no_extension() {
    assert_eq!(extension("README"), None);
    assert_eq!(extension(""), None);
}

#[test]
fn leading_dot_starts_an_extension() {
    assert_eq!(extension(".gitignore"), Some("gitignore".to_string()));
    assert_eq!(extension(".bashrc"), Some("bashrc".to_string()));
    assert_eq!(extension(".config.json"), Some("json".to_string()));
    assert_eq!(stem(".gitignore"), "");
}

#[test]
fn names_of_dots_alone_have_an_empty_extension() {
    assert_eq!(extension("."), Some(String::new()));
    assert_eq!(extension(".."), Some(String::new()));
    assert_eq!(stem("."), "");
    assert_eq!(stem(".."), ".");
    assert_eq!(extension("..a"), Some("a".to_string()));
}

#[test]
fn trailing_dot_gives_an_empty_extension() {
    assert_eq!(extension("notes."), Some(String::new()));
    assert_eq!(stem("notes."), "notes");
}

#[test]
fn stem_is_the_text_before_the_last_dot() {
    assert_eq!(stem("photo.JPG"), "photo");
    assert_eq!(stem("archive.tar.gz"), "archive.tar");
    assert_eq!(stem("README"), "README");
    assert_eq!(stem(".bashrc"), "");
}

#[test]
fn names_are_read_by_character_not_by_byte() {
    assert_eq!(extension("r\u{e9}sum\u{e9}.pdf"), Some("pdf".to_string()));
    assert_eq!(stem("r\u{e9}sum\u{e9}.pdf"), "r\u{e9}sum\u{e9}");
    assert_eq!(extension("note.\u{e9}t\u{e9}"), Some("\u{e9}t\u{e9}".to_string()));
}

#[test]
fn last_dot_is_found() {
    assert_eq!(find_last_dot("a.b.c"), Some(3));
    assert_eq!(find_last_dot(".a"), Some(0));
    assert_eq!(find_last_dot("abc"), None);
    assert_eq!(find_last_dot(""), None);
    assert_eq!(find_last_dot("\u{e9}.x"), Some(1));
}

#[test]
fn numbers_are_written_in_decimal() {
    assert_eq!(decimal_text(0), "0");
    assert_eq!(decimal_text(7), "7");
    assert_eq!(decimal_text(10), "10");
    assert_eq!(decimal_text(109), "109");
    assert_eq!(decimal_text(1234567890), "1234567890");
    assert_eq!(decimal_text(u64::MAX), "18446744073709551615");
}

#[test]
fn first_candidate_is_the_name_itself() {
    assert_eq!(candidate("a.txt", 0), "a.txt");
    assert_eq!(candidate("README", 0), "README");
}

#[test]
fn later_candidates_are_numbered_before_the_extension() {
    assert_eq!(candidate("a.txt", 1), "a_1.txt");
    assert_eq!(candidate("a.txt", 2), "a_2.txt");
    assert_eq!(candidate("a.txt", 10), "a_10.txt");
    assert_eq!(candidate("archive.tar.gz", 3), "archive.tar_3.gz");
    assert_eq!(candidate("photo.JPG", 2), "photo_2.JPG");
    assert_eq!(candidate("notes.", 1), "notes_1.");
    assert_eq!(candidate(".gitignore", 1), "_1.gitignore");
}

#[test]
fn name_without_extension_is_never_numbered() {
    assert_eq!(candidate("README", 4), "README");
    assert_eq!(candidate("", 1), "");
}
