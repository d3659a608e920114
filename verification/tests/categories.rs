use folder_organizer::categories::{default_categories, find_category};
use folder_organizer::organizer::FileOrganizer;
use folder_organizer::paths::FilePath;

fn organizer() -> FileOrganizer {
    FileOrganizer::new(FilePath::new(vec!["/".to_string(), "data".to_string()]), false, false)
}

#[test]
fn known_extension_has_its_category() {
    let o = organizer();
    assert_eq!(o.get_category_for_extension("jpg"), "Images");
    assert_eq!(o.get_category_for_extension("mkv"), "Videos");
    assert_eq!(o.get_category_for_extension("txt"), "Documents");
    assert_eq!(o.get_category_for_extension("flac"), "Audio");
    assert_eq!(o.get_category_for_extension("7z"), "Archives");
    assert_eq!(o.get_category_for_extension("toml"), "Code");
    assert_eq!(o.get_category_for_extension("csv"), "Spreadsheets");
    assert_eq!(o.get_category_for_extension("key"), "Presentations");
}

#[test]
fn unknown_extension_is_others() {
    let o = organizer();
    assert_eq!(o.get_category_for_extension("xyz123"), "Others");
    assert_eq!(o.get_category_for_extension(""), "Others");
    assert_eq!(o.get_category_for_extension("jp"), "Others");
    assert_eq!(o.get_category_for_extension("jpgg"), "Others");
}

#[test]
fn lookup_expects_lower_case() {
    let o = organizer();
    assert_eq!(o.get_category_for_extension("JPG"), "Others");
}

#[test]
fn every_listed_extension_has_the_category_that_lists_it() {
    let o = organizer();
    let table = FileOrganizer::get_default_categories();
    let mut seen = 0;
    for category in &table {
        for extension in &category.extensions {
            assert_eq!(o.get_category_for_extension(extension), category.name);
            seen += 1;
        }
    }
    assert_eq!(seen, 63);
}

#[test]
fn table_has_the_eight_categories_in_order() {
    let table = default_categories();
    let names: Vec<&str> = table.iter().map(|c| c.name.as_str()).collect();
    assert_eq!(
        names,
        vec![
            "Images",
            "Videos",
            "Documents",
            "Audio",
            "Archives",
            "Code",
            "Spreadsheets",
            "Presentations"
        ]
    );
    assert_eq!(table[0].extensions, vec!["jpg", "jpeg", "png", "gif", "bmp", "tiff", "webp", "svg"]);
    assert_eq!(table[7].extensions, vec!["ppt", "pptx", "key", "odp"]);
}

#[test]
fn no_extension_is_listed_twice() {
    let table = default_categories();
    let mut all: Vec<&str> = Vec::new();
    for category in &table {
        for extension in &category.extensions {
            assert!(!all.contains(&extension.as_str()));
            all.push(extension);
        }
    }
}

#[test]
fn category_for_ignores_case() {
    let o = organizer();
    assert_eq!(o.category_for("JPG"), "Images");
    assert_eq!(o.category_for("jpg"), "Images");
    assert_eq!(o.category_for("Pdf"), "Documents");
    assert_eq!(o.category_for("XYZ123"), "Others");
}

#[test]
fn find_category_takes_the_first_that_lists_the_extension() {
    let table = default_categories();
    assert_eq!(find_category(&table, "rs"), "Code");
    assert_eq!(find_category(&Vec::new(), "rs"), "Others");
}
