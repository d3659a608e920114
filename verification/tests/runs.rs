use std::collections::{BTreeMap, BTreeSet, VecDeque};

use folder_organizer::error::OrganizerError;
use folder_organizer::log::{MoveEntry, MoveLog};
use folder_organizer::organizer::{FileOrganizer, OrganizeState};
use folder_organizer::paths::FilePath;
use folder_organizer::protocol::{Event, Request};
use folder_organizer::undo::{UndoOutcome, UndoState};

type Parts = Vec<String>;

fn parts(names: &[&str]) -> Parts {
    names.iter().map(|n| n.to_string()).collect()
}

fn path(names: &[&str]) -> FilePath {
    FilePath::new(parts(names))
}

fn below(root: &[&str], names: &[&str]) -> Parts {
    let mut all = parts(root);
    all.extend(parts(names));
    all
}

const ROOT: [&str; 2] = ["/", "data"];

/// A disk in memory: files with their content, directories, and logs.
#[derive(Clone, PartialEq, Debug)]
struct Disk {
    files: BTreeMap<Parts, String>,
    dirs: BTreeSet<Parts>,
    logs: BTreeMap<Parts, MoveLog>,
}

impl Disk {
    fn new() -> Disk {
        let mut dirs = BTreeSet::new();
        dirs.insert(parts(&ROOT));
        Disk { files: BTreeMap::new(), dirs, logs: BTreeMap::new() }
    }

    fn file(mut self, names: &[&str], content: &str) -> Disk {
        self.files.insert(below(&ROOT, names), content.to_string());
        self
    }

    fn dir(mut self, names: &[&str]) -> Disk {
        self.dirs.insert(below(&ROOT, names));
        self
    }

    fn has(&self, at: &Parts) -> bool {
        self.files.contains_key(at) || self.dirs.contains(at) || self.logs.contains_key(at)
    }

    fn is_under(at: &Parts, dir: &Parts) -> bool {
        at.len() > dir.len() && at[..dir.len()] == dir[..]
    }

    fn is_empty_dir(&self, dir: &Parts) -> bool {
        self.dirs.contains(dir)
            && !self.files.keys().any(|f| Disk::is_under(f, dir))
            && !self.dirs.iter().any(|d| Disk::is_under(d, dir))
            && !self.logs.keys().any(|l| Disk::is_under(l, dir))
    }

    /// The entries below `root` down to `max_depth`, each directory before
    /// what it holds, as they stand when the walk begins.
    fn walk(&self, root: &Parts, max_depth: usize) -> VecDeque<(Parts, bool)> {
        let mut found: BTreeMap<Parts, bool> = BTreeMap::new();
        for f in self.files.keys() {
            found.insert(f.clone(), true);
        }
        for d in self.dirs.iter() {
            found.insert(d.clone(), false);
        }
        found
            .into_iter()
            .filter(|(at, _)| Disk::is_under(at, root) && at.len() - root.len() <= max_depth)
            .collect()
    }
}

fn organize(organizer: &FileOrganizer, disk: &mut Disk) -> Result<MoveLog, OrganizerError> {
    let mut state = OrganizeState::CheckingTarget;
    let mut walk: Option<VecDeque<(Parts, bool)>> = None;
    loop {
        let event = match organizer.next_request(&state) {
            Request::Inspect { path } => Event::Target {
                exists: disk.has(&path.components),
                is_dir: disk.dirs.contains(&path.components),
            },
            Request::ReadClock => Event::Clock { seconds: 1_700_000_000, nanos: 0 },
            Request::NextEntry { root, max_depth } => {
                if walk.is_none() {
                    walk = Some(disk.walk(&root.components, max_depth));
                }
                match walk.as_mut().unwrap().pop_front() {
                    Some((at, is_file)) => Event::Entry { path: FilePath::new(at), is_file },
                    None => Event::WalkEnded,
                }
            }
            Request::CreateDir { path } => {
                disk.dirs.insert(path.components);
                Event::Done
            }
            Request::Probe { path } => Event::Found { yes: disk.has(&path.components) },
            Request::Rename { from, to } => {
                let content = disk.files.remove(&from.components).unwrap();
                disk.files.insert(to.components, content);
                Event::Done
            }
            Request::WriteLog { path } => {
                if let OrganizeState::Saving { log } = &state {
                    disk.logs.insert(path.components, log.clone());
                }
                Event::Done
            }
            Request::Stop => {
                return match state {
                    OrganizeState::Finished { log } => Ok(log),
                    OrganizeState::Failed { error, .. } => Err(error),
                    other => panic!("stopped in {:?}", other),
                };
            }
            other => panic!("a run does not ask for {:?}", other),
        };
        state = organizer.organize(state, event);
    }
}

fn undo(organizer: &FileOrganizer, disk: &mut Disk) -> Result<UndoOutcome, OrganizerError> {
    let mut state = UndoState::Loading;
    loop {
        let event = match organizer.undo_request(&state) {
            Request::ReadLog { path } => match disk.logs.get(&path.components) {
                Some(log) => Event::LogLoaded { log: log.clone() },
                None => Event::LogMissing,
            },
            Request::Probe { path } => Event::Found { yes: disk.has(&path.components) },
            Request::Rename { from, to } => {
                let content = disk.files.remove(&from.components).unwrap();
                disk.files.insert(to.components, content);
                Event::Done
            }
            Request::ProbeEmptyDir { path } => {
                Event::Found { yes: disk.is_empty_dir(&path.components) }
            }
            Request::RemoveDir { path } => {
                disk.dirs.remove(&path.components);
                Event::Done
            }
            Request::RemoveFile { path } => {
                disk.logs.remove(&path.components);
                Event::Done
            }
            Request::Stop => {
                return match state {
                    UndoState::Finished { outcome } => Ok(outcome),
                    UndoState::Failed { error } => Err(error),
                    other => panic!("stopped in {:?}", other),
                };
            }
            other => panic!("an undo does not ask for {:?}", other),
        };
        state = organizer.undo_last_organization(state, event);
    }
}

fn fixture() -> Disk {
    Disk::new()
        .file(&["a.txt"], "top a")
        .file(&["b.png"], "top b")
        .dir(&["sub"])
        .file(&["sub", "a.txt"], "nested a")
        .file(&["sub", "c.mp3"], "nested c")
}

fn entry(from: &[&str], to: &[&str], category: &str) -> MoveEntry {
    MoveEntry {
        from: FilePath::new(below(&ROOT, from)),
        to: FilePath::new(below(&ROOT, to)),
        category: category.to_string(),
    }
}

#[test]
fn plain_run_moves_only_the_top_level() {
    let organizer = FileOrganizer::new(path(&ROOT), false, false);
    let mut disk = fixture();
    let log = organize(&organizer, &mut disk).unwrap();
    assert_eq!(
        log.moves,
        vec![
            entry(&["a.txt"], &["Documents", "a.txt"], "Documents"),
            entry(&["b.png"], &["Images", "b.png"], "Images"),
        ]
    );
    assert_eq!(disk.files[&below(&ROOT, &["Documents", "a.txt"])], "top a");
    assert_eq!(disk.files[&below(&ROOT, &["Images", "b.png"])], "top b");
    assert_eq!(disk.files[&below(&ROOT, &["sub", "a.txt"])], "nested a");
    assert_eq!(disk.files[&below(&ROOT, &["sub", "c.mp3"])], "nested c");
    assert_eq!(disk.files.len(), 4);
    assert!(disk.dirs.contains(&below(&ROOT, &["Documents"])));
    assert!(disk.dirs.contains(&below(&ROOT, &["Images"])));
    assert!(!disk.dirs.contains(&below(&ROOT, &["Audio"])));
}

#[test]
fn recursive_run_moves_nested_files_into_top_level_folders() {
    let organizer = FileOrganizer::new(path(&ROOT), true, false);
    let mut disk = fixture();
    let log = organize(&organizer, &mut disk).unwrap();
    assert_eq!(
        log.moves,
        vec![
            entry(&["a.txt"], &["Documents", "a.txt"], "Documents"),
            entry(&["b.png"], &["Images", "b.png"], "Images"),
            entry(&["sub", "a.txt"], &["Documents", "a_1.txt"], "Documents"),
            entry(&["sub", "c.mp3"], &["Audio", "c.mp3"], "Audio"),
        ]
    );
    assert_eq!(disk.files[&below(&ROOT, &["Documents", "a_1.txt"])], "nested a");
    assert_eq!(disk.files[&below(&ROOT, &["Audio", "c.mp3"])], "nested c");
    assert!(!disk.files.contains_key(&below(&ROOT, &["sub", "a.txt"])));
    assert!(disk.dirs.contains(&below(&ROOT, &["sub"])));
}

#[test]
fn run_writes_its_log_into_the_target() {
    let organizer = FileOrganizer::new(path(&ROOT), false, false);
    let mut disk = fixture();
    let log = organize(&organizer, &mut disk).unwrap();
    assert_eq!(disk.logs.len(), 1);
    assert_eq!(disk.logs[&below(&ROOT, &[".folder_organizer_log.json"])], log);
}

#[test]
fn log_bears_the_time_that_the_clock_read() {
    let organizer = FileOrganizer::new(path(&ROOT), false, true);
    let log = organize(&organizer, &mut fixture()).unwrap();
    assert_eq!(log.timestamp, "2023-11-14T22:13:20+00:00");
    let stamp = chrono::DateTime::parse_from_rfc3339(&log.timestamp).unwrap();
    assert_eq!(stamp.timestamp(), 1_700_000_000);
    assert_eq!(stamp.offset().local_minus_utc(), 0);
}

#[test]
fn dry_run_changes_nothing_and_reports_plain_destinations() {
    let organizer = FileOrganizer::new(path(&ROOT), true, true);
    let mut disk = fixture();
    let log = organize(&organizer, &mut disk).unwrap();
    assert_eq!(disk, fixture());
    assert_eq!(
        log.moves,
        vec![
            entry(&["a.txt"], &["Documents", "a.txt"], "Documents"),
            entry(&["b.png"], &["Images", "b.png"], "Images"),
            entry(&["sub", "a.txt"], &["Documents", "a.txt"], "Documents"),
            entry(&["sub", "c.mp3"], &["Audio", "c.mp3"], "Audio"),
        ]
    );
}

#[test]
fn dry_run_asks_for_nothing_that_changes_the_disk() {
    let organizer = FileOrganizer::new(path(&ROOT), true, true);
    let mut state = OrganizeState::CheckingTarget;
    let events = vec![
        Event::Target { exists: true, is_dir: true },
        Event::Clock { seconds: 0, nanos: 0 },
        Event::Entry { path: FilePath::new(below(&ROOT, &["a.txt"])), is_file: true },
        Event::Entry { path: FilePath::new(below(&ROOT, &["sub"])), is_file: false },
        Event::WalkEnded,
    ];
    for event in events {
        assert!(!organizer.next_request(&state).changes_disk());
        state = organizer.organize(state, event);
    }
    assert!(matches!(organizer.next_request(&state), Request::Stop));
    assert!(matches!(state, OrganizeState::Finished { .. }));
}

#[test]
fn dry_run_agrees_with_a_real_run_where_nothing_collides() {
    let dry = FileOrganizer::new(path(&ROOT), false, true);
    let real = FileOrganizer::new(path(&ROOT), false, false);
    let reported = organize(&dry, &mut fixture()).unwrap();
    let done = organize(&real, &mut fixture()).unwrap();
    assert_eq!(reported.moves, done.moves);
}

#[test]
fn colliding_names_are_numbered() {
    let organizer = FileOrganizer::new(path(&ROOT), true, false);
    let mut disk = Disk::new()
        .file(&["a.txt"], "first")
        .dir(&["s1"])
        .file(&["s1", "a.txt"], "second")
        .dir(&["s2"])
        .file(&["s2", "a.txt"], "third");
    let log = organize(&organizer, &mut disk).unwrap();
    assert_eq!(
        log.moves,
        vec![
            entry(&["a.txt"], &["Documents", "a.txt"], "Documents"),
            entry(&["s1", "a.txt"], &["Documents", "a_1.txt"], "Documents"),
            entry(&["s2", "a.txt"], &["Documents", "a_2.txt"], "Documents"),
        ]
    );
    assert_eq!(disk.files[&below(&ROOT, &["Documents", "a.txt"])], "first");
    assert_eq!(disk.files[&below(&ROOT, &["Documents", "a_1.txt"])], "second");
    assert_eq!(disk.files[&below(&ROOT, &["Documents", "a_2.txt"])], "third");
}

#[test]
fn collision_keeps_the_spelling_of_the_extension() {
    let organizer = FileOrganizer::new(path(&ROOT), false, false);
    let mut disk = Disk::new()
        .file(&["Photo.JPG"], "new")
        .dir(&["Images"])
        .file(&["Images", "Photo.JPG"], "old")
        .file(&["Images", "Photo_1.JPG"], "older");
    let log = organize(&organizer, &mut disk).unwrap();
    assert_eq!(log.moves, vec![entry(&["Photo.JPG"], &["Images", "Photo_2.JPG"], "Images")]);
    assert_eq!(disk.files[&below(&ROOT, &["Images", "Photo.JPG"])], "old");
    assert_eq!(disk.files[&below(&ROOT, &["Images", "Photo_2.JPG"])], "new");
}

#[test]
fn unknown_extension_goes_to_others() {
    let organizer = FileOrganizer::new(path(&ROOT), false, false);
    let mut disk = Disk::new().file(&["data.xyz123"], "x");
    let log = organize(&organizer, &mut disk).unwrap();
    assert_eq!(log.moves, vec![entry(&["data.xyz123"], &["Others", "data.xyz123"], "Others")]);
}

#[test]
fn organize_then_undo_restores_the_disk() {
    for recursive in [false, true] {
        let organizer = FileOrganizer::new(path(&ROOT), recursive, false);
        let mut disk = fixture();
        organize(&organizer, &mut disk).unwrap();
        assert_ne!(disk, fixture());
        assert_eq!(undo(&organizer, &mut disk).unwrap(), UndoOutcome::Restored);
        assert_eq!(disk, fixture());
    }
}

#[test]
fn undo_unwinds_numbered_names() {
    let organizer = FileOrganizer::new(path(&ROOT), true, false);
    let start = Disk::new()
        .file(&["a.txt"], "first")
        .dir(&["s1"])
        .file(&["s1", "a.txt"], "second")
        .dir(&["s2"])
        .file(&["s2", "a.txt"], "third");
    let mut disk = start.clone();
    organize(&organizer, &mut disk).unwrap();
    undo(&organizer, &mut disk).unwrap();
    assert_eq!(disk, start);
}

#[test]
fn undo_keeps_a_category_folder_that_is_not_empty() {
    let organizer = FileOrganizer::new(path(&ROOT), false, false);
    let start = Disk::new()
        .file(&["b.png"], "new")
        .dir(&["Images"])
        .file(&["Images", "old.png"], "old");
    let mut disk = start.clone();
    organize(&organizer, &mut disk).unwrap();
    undo(&organizer, &mut disk).unwrap();
    assert_eq!(disk, start);
    assert!(disk.dirs.contains(&below(&ROOT, &["Images"])));
}

#[test]
fn undo_removes_every_empty_category_folder() {
    let organizer = FileOrganizer::new(path(&ROOT), false, false);
    let mut disk = Disk::new().dir(&["Videos"]).dir(&["Code"]).dir(&["Others"]).dir(&["sub"]);
    disk.logs.insert(
        below(&ROOT, &[".folder_organizer_log.json"]),
        MoveLog::new("t".to_string()),
    );
    assert_eq!(undo(&organizer, &mut disk).unwrap(), UndoOutcome::Restored);
    assert_eq!(disk, Disk::new().dir(&["Others"]).dir(&["sub"]));
}

#[test]
fn undo_passes_over_a_file_that_is_gone() {
    let organizer = FileOrganizer::new(path(&ROOT), false, false);
    let mut disk = fixture();
    organize(&organizer, &mut disk).unwrap();
    disk.files.remove(&below(&ROOT, &["Images", "b.png"]));
    assert_eq!(undo(&organizer, &mut disk).unwrap(), UndoOutcome::Restored);
    assert_eq!(disk.files[&below(&ROOT, &["a.txt"])], "top a");
    assert!(!disk.files.contains_key(&below(&ROOT, &["b.png"])));
    assert!(!disk.dirs.contains(&below(&ROOT, &["Images"])));
    assert!(disk.logs.is_empty());
}

#[test]
fn file_without_extension_ends_the_run_and_earlier_moves_stay() {
    let organizer = FileOrganizer::new(path(&ROOT), false, false);
    let mut disk = Disk::new().file(&["a.txt"], "a").file(&["notes"], "n").file(&["z.png"], "z");
    let error = organize(&organizer, &mut disk).unwrap_err();
    match error {
        OrganizerError::NoExtensionError { path } => {
            assert_eq!(path, FilePath::new(below(&ROOT, &["notes"])));
        }
        other => panic!("unexpected error {:?}", other),
    }
    assert_eq!(disk.files[&below(&ROOT, &["Documents", "a.txt"])], "a");
    assert!(!disk.files.contains_key(&below(&ROOT, &["a.txt"])));
    assert_eq!(disk.files[&below(&ROOT, &["notes"])], "n");
    assert_eq!(disk.files[&below(&ROOT, &["z.png"])], "z");
    assert!(disk.logs.is_empty());
}

#[test]
fn file_without_extension_ends_a_dry_run_too() {
    let organizer = FileOrganizer::new(path(&ROOT), false, true);
    let mut disk = Disk::new().file(&["LICENSE"], "text");
    let error = organize(&organizer, &mut disk).unwrap_err();
    assert!(matches!(error, OrganizerError::NoExtensionError { .. }));
    assert_eq!(disk, Disk::new().file(&["LICENSE"], "text"));
}

#[test]
fn name_that_begins_with_its_only_dot_goes_to_others() {
    let organizer = FileOrganizer::new(path(&ROOT), false, false);
    let mut disk = Disk::new().file(&[".gitignore"], "target");
    let log = organize(&organizer, &mut disk).unwrap();
    assert_eq!(log.moves, vec![entry(&[".gitignore"], &["Others", ".gitignore"], "Others")]);
    assert_eq!(disk.files[&below(&ROOT, &["Others", ".gitignore"])], "target");
}

#[test]
fn extension_after_a_leading_dot_is_looked_up_too() {
    let organizer = FileOrganizer::new(path(&ROOT), false, false);
    let mut disk = Disk::new().file(&[".json"], "{}");
    let log = organize(&organizer, &mut disk).unwrap();
    assert_eq!(log.moves, vec![entry(&[".json"], &["Code", ".json"], "Code")]);
}

#[test]
fn undo_without_a_log_has_nothing_to_undo() {
    let organizer = FileOrganizer::new(path(&ROOT), false, false);
    let mut disk = fixture();
    assert_eq!(undo(&organizer, &mut disk).unwrap(), UndoOutcome::NothingToUndo);
    assert_eq!(disk, fixture());
}

#[test]
fn run_with_no_files_gives_an_empty_log() {
    let organizer = FileOrganizer::new(path(&ROOT), true, false);
    let mut disk = Disk::new().dir(&["sub"]);
    let log = organize(&organizer, &mut disk).unwrap();
    assert!(log.moves.is_empty());
    assert_eq!(disk.logs.len(), 1);
    assert_eq!(undo(&organizer, &mut disk).unwrap(), UndoOutcome::Restored);
    assert_eq!(disk, Disk::new().dir(&["sub"]));
}
