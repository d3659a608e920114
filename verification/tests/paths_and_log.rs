use folder_organizer::log::{MoveEntry, MoveLog};
use folder_organizer::paths::FilePath;

fn path(parts: &[&str]) -> FilePath {
    FilePath::new(parts.iter().map(|p| p.to_string()).collect())
}

fn entry(name: &str, category: &str) -> MoveEntry {
    MoveEntry {
        from: path(&["/", "data", name]),
        to: path(&["/", "data", category, name]),
        category: category.to_string(),
    }
}

#[test]
fn join_adds_one_component() {
    let joined = path(&["/", "data"]).join("Images");
    assert_eq!(joined, path(&["/", "data", "Images"]));
    assert_eq!(path(&[]).join("x"), path(&["x"]));
}

#[test]
fn join_leaves_the_path_it_started_from() {
    let base = path(&["/", "data"]);
    let _ = base.join("Images");
    assert_eq!(base, path(&["/", "data"]));
}

#[test]
fn file_name_is_the_final_component() {
    assert_eq!(path(&["/", "data", "a.txt"]).file_name(), Some("a.txt"));
    assert_eq!(path(&["a.txt"]).file_name(), Some("a.txt"));
}

#[test]
fn empty_path_and_parent_marker_have_no_file_name() {
    assert_eq!(path(&[]).file_name(), None);
    assert_eq!(path(&["/", "data", ".."]).file_name(), None);
}

#[test]
fn clone_of_a_path_is_equal_to_it() {
    let p = path(&["/", "data", "a.txt"]);
    assert_eq!(p.clone(), p);
}

#[test]
fn new_log_is_empty() {
    let log = MoveLog::new("2024-01-01T00:00:00+00:00".to_string());
    assert_eq!(log.timestamp, "2024-01-01T00:00:00+00:00");
    assert_eq!(log.len(), 0);
    assert!(log.moves.is_empty());
    assert!(log.categories().is_empty());
}

#[test]
fn record_appends_in_order() {
    let mut log = MoveLog::new("t".to_string());
    log.record(entry("a.txt", "Documents"));
    log.record(entry("b.png", "Images"));
    assert_eq!(log.len(), 2);
    assert_eq!(log.moves[0], entry("a.txt", "Documents"));
    assert_eq!(log.moves[1], entry("b.png", "Images"));
    assert_eq!(log.timestamp, "t");
}

#[test]
fn categories_are_listed_once_in_order_of_first_use() {
    let mut log = MoveLog::new("t".to_string());
    log.record(entry("a.txt", "Documents"));
    log.record(entry("b.png", "Images"));
    log.record(entry("c.pdf", "Documents"));
    log.record(entry("d.zip", "Archives"));
    log.record(entry("e.jpg", "Images"));
    assert_eq!(log.categories(), vec!["Documents", "Images", "Archives"]);
}

#[test]
fn clone_of_a_log_is_equal_to_it() {
    let mut log = MoveLog::new("t".to_string());
    log.record(entry("a.txt", "Documents"));
    assert_eq!(log.clone(), log);
    assert_eq!(log.moves[0].clone(), log.moves[0]);
}
