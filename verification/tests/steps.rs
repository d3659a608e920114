use folder_organizer::error::OrganizerError;
use folder_organizer::log::{MoveEntry, MoveLog};
use folder_organizer::organizer::{FileOrganizer, OrganizeState};
use folder_organizer::paths::FilePath;
use folder_organizer::protocol::{Event, Request};
use folder_organizer::undo::{UndoOutcome, UndoState};

fn path(names: &[&str]) -> FilePath {
    FilePath::new(names.iter().map(|n| n.to_string()).collect())
}

fn organizer(recursive: bool, dry_run: bool) -> FileOrganizer {
    FileOrganizer::new(path(&["/", "data"]), recursive, dry_run)
}

fn disk_error() -> std::io::Error {
    std::io::Error::new(std::io::ErrorKind::PermissionDenied, "denied")
}

fn json_error() -> serde_json::Error {
    serde_json::from_str::<serde_json::Value>("{").unwrap_err()
}

fn stamped(o: &FileOrganizer, seconds: i64, nanos: u32) -> OrganizeState {
    let stamping =
        o.organize(OrganizeState::CheckingTarget, Event::Target { exists: true, is_dir: true });
    o.organize(stamping, Event::Clock { seconds, nanos })
}

fn walking(o: &FileOrganizer) -> OrganizeState {
    stamped(o, 1_700_000_000, 0)
}

fn stamp_of(state: OrganizeState) -> String {
    match state {
        OrganizeState::Walking { log } => log.timestamp,
        other => panic!("unexpected state {:?}", other),
    }
}

fn file(names: &[&str]) -> Event {
    Event::Entry { path: path(names), is_file: true }
}

fn log_of_two() -> MoveLog {
    let mut log = MoveLog::new("t".to_string());
    log.record(MoveEntry {
        from: path(&["/", "data", "a.txt"]),
        to: path(&["/", "data", "Documents", "a.txt"]),
        category: "Documents".to_string(),
    });
    log.record(MoveEntry {
        from: path(&["/", "data", "b.png"]),
        to: path(&["/", "data", "Images", "b.png"]),
        category: "Images".to_string(),
    });
    log
}

#[test]
fn settings_are_kept() {
    let o = organizer(true, false);
    assert_eq!(o.target_dir(), &path(&["/", "data"]));
    assert!(o.recursive());
    assert!(!o.dry_run());
    assert_eq!(o.category_count(), 8);
}

#[test]
fn walk_depth_follows_the_recursive_flag() {
    assert_eq!(organizer(false, false).max_depth(), 1);
    assert_eq!(organizer(true, false).max_depth(), usize::MAX);
    let flat = organizer(false, false);
    match flat.next_request(&walking(&flat)) {
        Request::NextEntry { root, max_depth } => {
            assert_eq!(root, path(&["/", "data"]));
            assert_eq!(max_depth, 1);
        }
        other => panic!("unexpected request {:?}", other),
    }
}

#[test]
fn log_is_kept_inside_the_target() {
    assert_eq!(
        organizer(false, false).log_path(),
        path(&["/", "data", ".folder_organizer_log.json"])
    );
}

#[test]
fn category_folders_stand_inside_the_target() {
    let o = organizer(false, false);
    assert_eq!(o.category_folder(0), Some(path(&["/", "data", "Images"])));
    assert_eq!(o.category_folder(7), Some(path(&["/", "data", "Presentations"])));
    assert_eq!(o.category_folder(8), None);
}

#[test]
fn run_begins_by_inspecting_the_target() {
    let o = organizer(false, false);
    match o.next_request(&OrganizeState::CheckingTarget) {
        Request::Inspect { path: asked } => assert_eq!(asked, path(&["/", "data"])),
        other => panic!("unexpected request {:?}", other),
    }
}

#[test]
fn valid_target_leads_to_reading_the_clock() {
    let o = organizer(false, false);
    let next = o.organize(OrganizeState::CheckingTarget, Event::Target { exists: true, is_dir: true });
    assert!(matches!(next, OrganizeState::Stamping));
    assert!(matches!(o.next_request(&next), Request::ReadClock));
    assert!(!Request::ReadClock.changes_disk());
}

#[test]
fn clock_is_written_as_rfc_3339_in_utc() {
    let o = organizer(false, false);
    assert_eq!(stamp_of(stamped(&o, 1_700_000_000, 0)), "2023-11-14T22:13:20+00:00");
    assert_eq!(stamp_of(stamped(&o, 0, 0)), "1970-01-01T00:00:00+00:00");
    assert_eq!(stamp_of(stamped(&o, -1, 0)), "1969-12-31T23:59:59+00:00");
    assert_eq!(stamp_of(stamped(&o, 1_700_000_000, 500_000_000)), "2023-11-14T22:13:20.500+00:00");
    assert_eq!(stamp_of(stamped(&o, 1_700_000_000, 1)), "2023-11-14T22:13:20.000000001+00:00");
}

#[test]
fn year_past_four_digits_is_written_with_a_sign() {
    let o = organizer(false, false);
    assert_eq!(stamp_of(stamped(&o, 253_402_300_800, 0)), "+10000-01-01T00:00:00+00:00");
}

#[test]
fn clock_that_names_no_date_is_passed_over() {
    let o = organizer(false, false);
    assert!(matches!(stamped(&o, i64::MAX, 0), OrganizeState::Stamping));
    assert!(matches!(stamped(&o, i64::MIN, 0), OrganizeState::Stamping));
    assert!(matches!(stamped(&o, 0, 2_000_000_000), OrganizeState::Stamping));
}

#[test]
fn new_log_is_empty_under_its_time() {
    let o = organizer(false, false);
    match walking(&o) {
        OrganizeState::Walking { log } => {
            assert!(log.moves.is_empty());
            assert_eq!(log.timestamp, "2023-11-14T22:13:20+00:00");
        }
        other => panic!("unexpected state {:?}", other),
    }
}

#[test]
fn missing_target_is_invalid() {
    let o = organizer(false, false);
    let next = o.organize(OrganizeState::CheckingTarget, Event::Target { exists: false, is_dir: false });
    match next {
        OrganizeState::Failed { error: OrganizerError::InvalidTargetDir { path: at }, moves } => {
            assert_eq!(at, path(&["/", "data"]));
            assert!(moves.is_empty());
        }
        other => panic!("unexpected state {:?}", other),
    }
}

#[test]
fn target_that_is_no_directory_is_invalid() {
    let o = organizer(false, true);
    let next = o.organize(OrganizeState::CheckingTarget, Event::Target { exists: true, is_dir: false });
    assert!(matches!(
        next,
        OrganizeState::Failed { error: OrganizerError::InvalidTargetDir { .. }, .. }
    ));
    assert!(matches!(o.next_request(&next), Request::Stop));
}

#[test]
fn failed_walk_is_a_read_dir_error() {
    let o = organizer(false, false);
    let next = o.organize(walking(&o), Event::IoFailed { source: disk_error() });
    match next {
        OrganizeState::Failed { error: OrganizerError::ReadDirError { path: at, source }, .. } => {
            assert_eq!(at, path(&["/", "data"]));
            assert_eq!(source.kind(), std::io::ErrorKind::PermissionDenied);
        }
        other => panic!("unexpected state {:?}", other),
    }
}

#[test]
fn directories_of_the_walk_are_passed_over() {
    let o = organizer(true, false);
    let next = o.organize(walking(&o), Event::Entry { path: path(&["/", "data", "sub.d"]), is_file: false });
    match next {
        OrganizeState::Walking { log } => assert!(log.moves.is_empty()),
        other => panic!("unexpected state {:?}", other),
    }
}

#[test]
fn file_is_placed_then_its_folder_is_asked_for() {
    let o = organizer(false, false);
    let next = o.organize(walking(&o), file(&["/", "data", "Report.PDF"]));
    match o.next_request(&next) {
        Request::CreateDir { path: asked } => assert_eq!(asked, path(&["/", "data", "Documents"])),
        other => panic!("unexpected request {:?}", other),
    }
    match next {
        OrganizeState::CreatingDir { log, placement } => {
            assert!(log.moves.is_empty());
            assert_eq!(placement.source, path(&["/", "data", "Report.PDF"]));
            assert_eq!(placement.category, "Documents");
            assert_eq!(placement.directory, path(&["/", "data", "Documents"]));
            assert_eq!(placement.attempt, 0);
            assert_eq!(placement.destination, path(&["/", "data", "Documents", "Report.PDF"]));
        }
        other => panic!("unexpected state {:?}", other),
    }
}

#[test]
fn failed_folder_creation_is_a_create_dir_error() {
    let o = organizer(false, false);
    let creating = o.organize(walking(&o), file(&["/", "data", "a.txt"]));
    let next = o.organize(creating, Event::IoFailed { source: disk_error() });
    match next {
        OrganizeState::Failed { error: OrganizerError::CreateDirError { path: at, .. }, .. } => {
            assert_eq!(at, path(&["/", "data", "Documents"]));
        }
        other => panic!("unexpected state {:?}", other),
    }
}

#[test]
fn taken_destination_is_tried_again_under_the_next_number() {
    let o = organizer(false, false);
    let creating = o.organize(walking(&o), file(&["/", "data", "a.txt"]));
    let mut state = o.organize(creating, Event::Done);
    let mut asked = Vec::new();
    for _ in 0..3 {
        match o.next_request(&state) {
            Request::Probe { path: at } => asked.push(at),
            other => panic!("unexpected request {:?}", other),
        }
        state = o.organize(state, Event::Found { yes: true });
    }
    assert_eq!(
        asked,
        vec![
            path(&["/", "data", "Documents", "a.txt"]),
            path(&["/", "data", "Documents", "a_1.txt"]),
            path(&["/", "data", "Documents", "a_2.txt"]),
        ]
    );
    let moving = o.organize(state, Event::Found { yes: false });
    match o.next_request(&moving) {
        Request::Rename { from, to } => {
            assert_eq!(from, path(&["/", "data", "a.txt"]));
            assert_eq!(to, path(&["/", "data", "Documents", "a_3.txt"]));
        }
        other => panic!("unexpected request {:?}", other),
    }
    match o.organize(moving, Event::Done) {
        OrganizeState::Walking { log } => {
            assert_eq!(log.len(), 1);
            assert_eq!(log.moves[0].to, path(&["/", "data", "Documents", "a_3.txt"]));
            assert_eq!(log.moves[0].from, path(&["/", "data", "a.txt"]));
            assert_eq!(log.moves[0].category, "Documents");
        }
        other => panic!("unexpected state {:?}", other),
    }
}

#[test]
fn failed_rename_is_a_move_file_error() {
    let o = organizer(false, false);
    let creating = o.organize(walking(&o), file(&["/", "data", "a.txt"]));
    let probing = o.organize(creating, Event::Done);
    let moving = o.organize(probing, Event::Found { yes: false });
    let next = o.organize(moving, Event::IoFailed { source: disk_error() });
    match next {
        OrganizeState::Failed { error: OrganizerError::MoveFileError { from, to, .. }, .. } => {
            assert_eq!(from, path(&["/", "data", "a.txt"]));
            assert_eq!(to, path(&["/", "data", "Documents", "a.txt"]));
        }
        other => panic!("unexpected state {:?}", other),
    }
}

#[test]
fn end_of_walk_asks_for_the_log_to_be_written() {
    let o = organizer(false, false);
    let saving = o.organize(walking(&o), Event::WalkEnded);
    match o.next_request(&saving) {
        Request::WriteLog { path: at } => {
            assert_eq!(at, path(&["/", "data", ".folder_organizer_log.json"]));
        }
        other => panic!("unexpected request {:?}", other),
    }
    assert!(matches!(o.organize(saving, Event::Done), OrganizeState::Finished { .. }));
}

#[test]
fn log_that_cannot_be_encoded_is_a_serialization_error() {
    let o = organizer(false, false);
    let saving = o.organize(walking(&o), Event::WalkEnded);
    let next = o.organize(saving, Event::JsonFailed { source: json_error() });
    match next {
        OrganizeState::Failed { error: OrganizerError::SerializationError { path: at, .. }, .. } => {
            assert_eq!(at, path(&["/", "data", ".folder_organizer_log.json"]));
        }
        other => panic!("unexpected state {:?}", other),
    }
}

#[test]
fn log_that_cannot_be_written_is_a_log_write_error() {
    let o = organizer(false, false);
    let saving = o.organize(walking(&o), Event::WalkEnded);
    let next = o.organize(saving, Event::IoFailed { source: disk_error() });
    match &next {
        OrganizeState::Failed { error: OrganizerError::LogWriteError { path: at, source }, .. } => {
            assert_eq!(at, &path(&["/", "data", ".folder_organizer_log.json"]));
            assert_eq!(source.kind(), std::io::ErrorKind::PermissionDenied);
        }
        other => panic!("unexpected state {:?}", other),
    }
    assert!(matches!(o.next_request(&next), Request::Stop));
}

#[test]
fn state_passes_over_an_event_it_does_not_wait_for() {
    let o = organizer(false, false);
    let state = o.organize(OrganizeState::CheckingTarget, Event::WalkEnded);
    assert!(matches!(state, OrganizeState::CheckingTarget));
    let state = o.organize(walking(&o), Event::Found { yes: true });
    assert!(matches!(state, OrganizeState::Walking { .. }));
    let finished = o.organize(o.organize(walking(&o), Event::WalkEnded), Event::Done);
    let still = o.organize(finished, file(&["/", "data", "a.txt"]));
    assert!(matches!(still, OrganizeState::Finished { .. }));
    let u = o.undo_last_organization(UndoState::Loading, Event::Done);
    assert!(matches!(u, UndoState::Loading));
}

#[test]
fn place_finds_category_folder_and_name() {
    let o = organizer(false, false);
    let placed = o.place(&path(&["/", "data", "sub", "Song.MP3"]), 2).unwrap();
    assert_eq!(placed.category, "Audio");
    assert_eq!(placed.directory, path(&["/", "data", "Audio"]));
    assert_eq!(placed.destination, path(&["/", "data", "Audio", "Song_2.MP3"]));
    assert_eq!(placed.attempt, 2);
    assert!(o.place(&path(&["/", "data", "Makefile"]), 0).is_none());
    assert!(o.place(&path(&[]), 0).is_none());
    assert!(o.place(&path(&["/", "data", ".."]), 0).is_none());
}

#[test]
fn undo_begins_by_reading_the_log() {
    let o = organizer(false, false);
    match o.undo_request(&UndoState::Loading) {
        Request::ReadLog { path: at } => {
            assert_eq!(at, path(&["/", "data", ".folder_organizer_log.json"]));
        }
        other => panic!("unexpected request {:?}", other),
    }
}

#[test]
fn missing_log_means_nothing_to_undo() {
    let o = organizer(false, false);
    let next = o.undo_last_organization(UndoState::Loading, Event::LogMissing);
    assert!(matches!(next, UndoState::Finished { outcome: UndoOutcome::NothingToUndo }));
    assert!(matches!(o.undo_request(&next), Request::Stop));
}

#[test]
fn unreadable_log_is_a_log_read_error() {
    let o = organizer(false, false);
    let next = o.undo_last_organization(UndoState::Loading, Event::IoFailed { source: disk_error() });
    match next {
        UndoState::Failed { error: OrganizerError::LogReadError { path: at, .. } } => {
            assert_eq!(at, path(&["/", "data", ".folder_organizer_log.json"]));
        }
        other => panic!("unexpected state {:?}", other),
    }
}

#[test]
fn failed_run_tells_what_it_had_moved() {
    let o = organizer(false, false);
    let creating = o.organize(walking(&o), file(&["/", "data", "a.txt"]));
    let probing = o.organize(creating, Event::Done);
    let moving = o.organize(probing, Event::Found { yes: false });
    let again = o.organize(moving, Event::Done);
    let failed = o.organize(again, file(&["/", "data", "notes"]));
    match failed {
        OrganizeState::Failed { error: OrganizerError::NoExtensionError { path: at }, moves } => {
            assert_eq!(at, path(&["/", "data", "notes"]));
            assert_eq!(moves.len(), 1);
            assert_eq!(moves[0].from, path(&["/", "data", "a.txt"]));
            assert_eq!(moves[0].to, path(&["/", "data", "Documents", "a.txt"]));
        }
        other => panic!("unexpected state {:?}", other),
    }
}

#[test]
fn log_that_cannot_be_decoded_is_a_serialization_error() {
    let o = organizer(false, false);
    let next = o.undo_last_organization(UndoState::Loading, Event::JsonFailed { source: json_error() });
    match next {
        UndoState::Failed { error: OrganizerError::SerializationError { path: at, .. } } => {
            assert_eq!(at, path(&["/", "data", ".folder_organizer_log.json"]));
        }
        other => panic!("unexpected state {:?}", other),
    }
}

#[test]
fn undo_takes_the_moves_last_first() {
    let o = organizer(false, false);
    let mut state = o.undo_last_organization(UndoState::Loading, Event::LogLoaded { log: log_of_two() });
    match o.undo_request(&state) {
        Request::Probe { path: at } => assert_eq!(at, path(&["/", "data", "Images", "b.png"])),
        other => panic!("unexpected request {:?}", other),
    }
    state = o.undo_last_organization(state, Event::Found { yes: true });
    match o.undo_request(&state) {
        Request::Rename { from, to } => {
            assert_eq!(from, path(&["/", "data", "Images", "b.png"]));
            assert_eq!(to, path(&["/", "data", "b.png"]));
        }
        other => panic!("unexpected request {:?}", other),
    }
    state = o.undo_last_organization(state, Event::Done);
    match o.undo_request(&state) {
        Request::Probe { path: at } => assert_eq!(at, path(&["/", "data", "Documents", "a.txt"])),
        other => panic!("unexpected request {:?}", other),
    }
    state = o.undo_last_organization(state, Event::Found { yes: false });
    match o.undo_request(&state) {
        Request::ProbeEmptyDir { path: at } => assert_eq!(at, path(&["/", "data", "Images"])),
        other => panic!("unexpected request {:?}", other),
    }
}

#[test]
fn failed_rename_ends_the_undo() {
    let o = organizer(false, false);
    let probing = o.undo_last_organization(UndoState::Loading, Event::LogLoaded { log: log_of_two() });
    let restoring = o.undo_last_organization(probing, Event::Found { yes: true });
    let next = o.undo_last_organization(restoring, Event::IoFailed { source: disk_error() });
    match &next {
        UndoState::Failed { error: OrganizerError::MoveFileError { from, to, .. } } => {
            assert_eq!(from, &path(&["/", "data", "Images", "b.png"]));
            assert_eq!(to, &path(&["/", "data", "b.png"]));
        }
        other => panic!("unexpected state {:?}", other),
    }
    assert!(matches!(o.undo_request(&next), Request::Stop));
}

#[test]
fn cleanup_visits_every_category_folder_and_then_the_log() {
    let o = organizer(false, false);
    let mut state =
        o.undo_last_organization(UndoState::Loading, Event::LogLoaded { log: MoveLog::new("t".to_string()) });
    let mut visited = Vec::new();
    loop {
        match o.undo_request(&state) {
            Request::ProbeEmptyDir { path: at } => visited.push(at.components[2].clone()),
            Request::RemoveFile { path: at } => {
                assert_eq!(at, path(&["/", "data", ".folder_organizer_log.json"]));
                break;
            }
            other => panic!("unexpected request {:?}", other),
        }
        state = o.undo_last_organization(state, Event::Found { yes: false });
    }
    assert_eq!(
        visited,
        vec![
            "Images",
            "Videos",
            "Documents",
            "Audio",
            "Archives",
            "Code",
            "Spreadsheets",
            "Presentations"
        ]
    );
    let end = o.undo_last_organization(state, Event::Done);
    assert!(matches!(end, UndoState::Finished { outcome: UndoOutcome::Restored }));
}

#[test]
fn failed_removals_are_passed_over() {
    let o = organizer(false, false);
    let removing = o.undo_last_organization(UndoState::Inspecting { index: 7 }, Event::Found { yes: true });
    match o.undo_request(&removing) {
        Request::RemoveDir { path: at } => assert_eq!(at, path(&["/", "data", "Presentations"])),
        other => panic!("unexpected request {:?}", other),
    }
    let next = o.undo_last_organization(removing, Event::IoFailed { source: disk_error() });
    assert!(matches!(next, UndoState::RemovingLog));
    let end = o.undo_last_organization(next, Event::IoFailed { source: disk_error() });
    assert!(matches!(end, UndoState::Finished { outcome: UndoOutcome::Restored }));
}

#[test]
fn state_that_names_no_move_asks_for_nothing() {
    let o = organizer(false, false);
    let state = UndoState::Probing { log: log_of_two(), remaining: 3 };
    assert!(matches!(o.undo_request(&state), Request::Stop));
    let same = o.undo_last_organization(state, Event::Found { yes: true });
    assert!(matches!(same, UndoState::Probing { remaining: 3, .. }));
    assert!(matches!(o.undo_request(&UndoState::Inspecting { index: 8 }), Request::Stop));
}

#[test]
fn only_some_requests_change_the_disk() {
    let at = path(&["/", "data"]);
    assert!(Request::CreateDir { path: at.clone() }.changes_disk());
    assert!(Request::Rename { from: at.clone(), to: at.clone() }.changes_disk());
    assert!(Request::WriteLog { path: at.clone() }.changes_disk());
    assert!(Request::RemoveDir { path: at.clone() }.changes_disk());
    assert!(Request::RemoveFile { path: at.clone() }.changes_disk());
    assert!(!Request::Inspect { path: at.clone() }.changes_disk());
    assert!(!Request::NextEntry { root: at.clone(), max_depth: 1 }.changes_disk());
    assert!(!Request::Probe { path: at.clone() }.changes_disk());
    assert!(!Request::ReadLog { path: at.clone() }.changes_disk());
    assert!(!Request::ProbeEmptyDir { path: at }.changes_disk());
    assert!(!Request::Stop.changes_disk());
}
