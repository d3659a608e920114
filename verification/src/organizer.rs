//! The organizer: its settings, where a file goes, and the run that sorts a
//! directory, one answered request at a time.

use vstd::prelude::*;
use vstd::string::*;
use crate::categories::{
    category_of, default_categories, default_table, find_category, table_view, Category,
};
use crate::error::{ErrorView, OrganizerError};
use crate::log::{moves_view, well_stamped, MoveEntry, MoveEntryView, MoveLog, MoveLogView};
use crate::names::{candidate, candidate_name, extension, extension_of, has_extension};
use crate::outside::{lowercase, rfc3339_of, rfc3339_utc, to_lowercase};
use crate::paths::{file_name_of, FilePath};
use crate::protocol::{Event, EventView, Request, RequestView};

verus! {

/// Sorts the files of one directory. Holds the directory, whether to go into
/// its subdirectories, whether to only report what would be done, and the
/// built-in table of categories.
pub struct FileOrganizer {
    categories: Vec<Category>,
    target_dir: FilePath,
    recursive: bool,
    dry_run: bool,
}

/// What an organizer was set up with.
pub struct Settings {
    pub target_dir: Seq<Seq<char>>,
    pub recursive: bool,
    pub dry_run: bool,
}

/// Where one file is to go, and how many names were found taken so far.
#[derive(Debug)]
pub struct Placement {
    pub source: FilePath,
    pub category: String,
    pub directory: FilePath,
    pub attempt: u64,
    pub destination: FilePath,
}

/// A placement as contracts speak of it.
pub struct PlacementView {
    pub source: Seq<Seq<char>>,
    pub category: Seq<char>,
    pub directory: Seq<Seq<char>>,
    pub attempt: nat,
    pub destination: Seq<Seq<char>>,
}

impl View for Placement {
    type V = PlacementView;

    open spec fn view(&self) -> PlacementView {
        PlacementView {
            source: self.source@,
            category: self.category@,
            directory: self.directory@,
            attempt: self.attempt as nat,
            destination: self.destination@,
        }
    }
}

/// How far a run has come. Each state but the last two waits for the answer
/// to the one request that `next_request` gives for it.
#[derive(Debug)]
pub enum OrganizeState {
    /// Waiting to hear whether the target is a directory.
    CheckingTarget,
    /// Waiting to hear what the clock reads, for the time that the log bears.
    Stamping,
    /// Waiting for the next entry of the walk.
    Walking { log: MoveLog },
    /// Waiting for the category folder to be created.
    CreatingDir { log: MoveLog, placement: Placement },
    /// Waiting to hear whether the destination is taken.
    Probing { log: MoveLog, placement: Placement },
    /// Waiting for the file to be renamed.
    Moving { log: MoveLog, placement: Placement },
    /// Waiting for the log to be written.
    Saving { log: MoveLog },
    /// The run is over and this is its log.
    Finished { log: MoveLog },
    /// The run was given up. What was moved before stays moved: `moves` holds
    /// the moves that the run had recorded when it failed.
    Failed { error: OrganizerError, moves: Vec<MoveEntry> },
}

/// A state as contracts speak of it.
pub enum OrganizeStateView {
    CheckingTarget,
    Stamping,
    Walking { log: MoveLogView },
    CreatingDir { log: MoveLogView, placement: PlacementView },
    Probing { log: MoveLogView, placement: PlacementView },
    Moving { log: MoveLogView, placement: PlacementView },
    Saving { log: MoveLogView },
    Finished { log: MoveLogView },
    Failed { error: ErrorView, moves: Seq<MoveEntryView> },
}

impl View for OrganizeState {
    type V = OrganizeStateView;

    open spec fn view(&self) -> OrganizeStateView {
        match *self {
            OrganizeState::CheckingTarget => OrganizeStateView::CheckingTarget,
            OrganizeState::Stamping => OrganizeStateView::Stamping,
            OrganizeState::Walking { log } => OrganizeStateView::Walking { log: log@ },
            OrganizeState::CreatingDir { log, placement } => OrganizeStateView::CreatingDir {
                log: log@,
                placement: placement@,
            },
            OrganizeState::Probing { log, placement } => OrganizeStateView::Probing {
                log: log@,
                placement: placement@,
            },
            OrganizeState::Moving { log, placement } => OrganizeStateView::Moving {
                log: log@,
                placement: placement@,
            },
            OrganizeState::Saving { log } => OrganizeStateView::Saving { log: log@ },
            OrganizeState::Finished { log } => OrganizeStateView::Finished { log: log@ },
            OrganizeState::Failed { error, moves } => OrganizeStateView::Failed {
                error: error@,
                moves: moves_view(moves@),
            },
        }
    }
}

impl OrganizeStateView {
    /// The time that the state's log bears; empty where the state has no log.
    pub open spec fn stamp(self) -> Seq<char> {
        match self {
            OrganizeStateView::Walking { log } => log.timestamp,
            OrganizeStateView::CreatingDir { log, .. } => log.timestamp,
            OrganizeStateView::Probing { log, .. } => log.timestamp,
            OrganizeStateView::Moving { log, .. } => log.timestamp,
            OrganizeStateView::Saving { log } => log.timestamp,
            OrganizeStateView::Finished { log } => log.timestamp,
            _ => Seq::empty(),
        }
    }

    /// Whether the run is over.
    pub open spec fn is_over(self) -> bool {
        self is Finished || self is Failed
    }
}

/// The name of the log file inside the target directory.
pub open spec fn log_file_name() -> Seq<char> {
    ".folder_organizer_log.json"@
}

/// Where the log of a run is kept.
pub open spec fn log_path_of(cfg: Settings) -> Seq<Seq<char>> {
    cfg.target_dir.push(log_file_name())
}

/// Whether a path names a file that can be sorted: it has a final name, and
/// that name has an extension.
pub open spec fn sortable(source: Seq<Seq<char>>) -> bool {
    file_name_of(source) is Some && has_extension(file_name_of(source)->0)
}

/// The category of a file: that of its extension in lower case.
pub open spec fn category_of_file(source: Seq<Seq<char>>) -> Seq<char>
    recommends
        sortable(source),
{
    category_of(lowercase(extension_of(file_name_of(source)->0)->0))
}

/// Where the file `source` goes at try number `attempt`: into the folder of
/// its category inside the target directory, under its own name at 0 and under
/// its numbered names after that. `None` where the file cannot be sorted.
pub open spec fn placement_of(cfg: Settings, source: Seq<Seq<char>>, attempt: nat) -> Option<
    PlacementView,
> {
    if sortable(source) {
        let directory = cfg.target_dir.push(category_of_file(source));
        Some(
            PlacementView {
                source,
                category: category_of_file(source),
                directory,
                attempt,
                destination: directory.push(candidate_name(file_name_of(source)->0, attempt)),
            },
        )
    } else {
        None
    }
}

/// The log entry for a file that was placed.
pub open spec fn entry_of(placement: PlacementView) -> MoveEntryView {
    MoveEntryView {
        from: placement.source,
        to: placement.destination,
        category: placement.category,
    }
}

/// An empty log under the given time.
pub open spec fn fresh_log(stamp: Seq<char>) -> MoveLogView {
    MoveLogView { timestamp: stamp, moves: Seq::empty() }
}

/// The state after `event` came in state `state`. An event that a state does
/// not wait for leaves it as it is, and so does a reading of the clock that
/// cannot be written as a date.
pub open spec fn organize_next(
    cfg: Settings,
    state: OrganizeStateView,
    event: EventView,
) -> OrganizeStateView {
    match state {
        OrganizeStateView::CheckingTarget => match event {
            EventView::Target { exists, is_dir } => if exists && is_dir {
                OrganizeStateView::Stamping
            } else {
                OrganizeStateView::Failed {
                    error: ErrorView::InvalidTargetDir { path: cfg.target_dir },
                    moves: Seq::empty(),
                }
            },
            _ => state,
        },
        OrganizeStateView::Stamping => match event {
            EventView::Clock { seconds, nanos } => match rfc3339_of(seconds, nanos) {
                Some(stamp) => OrganizeStateView::Walking { log: fresh_log(stamp) },
                None => state,
            },
            _ => state,
        },
        OrganizeStateView::Walking { log } => match event {
            EventView::Entry { path, is_file } => if !is_file {
                state
            } else {
                match placement_of(cfg, path, 0) {
                    None => OrganizeStateView::Failed {
                        error: ErrorView::NoExtensionError { path },
                        moves: log.moves,
                    },
                    Some(placement) => if cfg.dry_run {
                        OrganizeStateView::Walking { log: log.with(entry_of(placement)) }
                    } else {
                        OrganizeStateView::CreatingDir { log, placement }
                    },
                }
            },
            EventView::WalkEnded => if cfg.dry_run {
                OrganizeStateView::Finished { log }
            } else {
                OrganizeStateView::Saving { log }
            },
            EventView::IoFailed { source } => OrganizeStateView::Failed {
                error: ErrorView::ReadDirError { path: cfg.target_dir, source },
                moves: log.moves,
            },
            _ => state,
        },
        OrganizeStateView::CreatingDir { log, placement } => match event {
            EventView::Done => OrganizeStateView::Probing { log, placement },
            EventView::IoFailed { source } => OrganizeStateView::Failed {
                error: ErrorView::CreateDirError { path: placement.directory, source },
                moves: log.moves,
            },
            _ => state,
        },
        OrganizeStateView::Probing { log, placement } => match event {
            EventView::Found { yes } => if !yes {
                OrganizeStateView::Moving { log, placement }
            } else {
                match placement_of(cfg, placement.source, placement.attempt + 1) {
                    None => OrganizeStateView::Failed {
                        error: ErrorView::NoExtensionError { path: placement.source },
                        moves: log.moves,
                    },
                    Some(retry) => OrganizeStateView::Probing { log, placement: retry },
                }
            },
            _ => state,
        },
        OrganizeStateView::Moving { log, placement } => match event {
            EventView::Done => OrganizeStateView::Walking { log: log.with(entry_of(placement)) },
            EventView::IoFailed { source } => OrganizeStateView::Failed {
                error: ErrorView::MoveFileError {
                    from: placement.source,
                    to: placement.destination,
                    source,
                },
                moves: log.moves,
            },
            _ => state,
        },
        OrganizeStateView::Saving { log } => match event {
            EventView::Done => OrganizeStateView::Finished { log },
            EventView::JsonFailed { source } => OrganizeStateView::Failed {
                error: ErrorView::SerializationError { path: log_path_of(cfg), source },
                moves: log.moves,
            },
            EventView::IoFailed { source } => OrganizeStateView::Failed {
                error: ErrorView::LogWriteError { path: log_path_of(cfg), source },
                moves: log.moves,
            },
            _ => state,
        },
        _ => state,
    }
}

/// The folder of the category at `index` of the built-in table.
pub open spec fn folder_of(cfg: Settings, index: nat) -> Seq<Seq<char>>
    recommends
        index < default_table().len(),
{
    cfg.target_dir.push(default_table()[index as int].name)
}

/// How deep the walk goes: one level, or without limit.
pub open spec fn walk_depth(cfg: Settings) -> usize {
    if cfg.recursive {
        usize::MAX
    } else {
        1
    }
}

/// What a state asks of the driver.
pub open spec fn organize_request(cfg: Settings, state: OrganizeStateView) -> RequestView {
    match state {
        OrganizeStateView::CheckingTarget => RequestView::Inspect { path: cfg.target_dir },
        OrganizeStateView::Stamping => RequestView::ReadClock,
        OrganizeStateView::Walking { .. } => RequestView::NextEntry {
            root: cfg.target_dir,
            max_depth: walk_depth(cfg),
        },
        OrganizeStateView::CreatingDir { placement, .. } => RequestView::CreateDir {
            path: placement.directory,
        },
        OrganizeStateView::Probing { placement, .. } => RequestView::Probe {
            path: placement.destination,
        },
        OrganizeStateView::Moving { placement, .. } => RequestView::Rename {
            from: placement.source,
            to: placement.destination,
        },
        OrganizeStateView::Saving { .. } => RequestView::WriteLog { path: log_path_of(cfg) },
        _ => RequestView::Stop,
    }
}

impl Placement {
    /// The log entry for the file once it stands at its destination.
    pub fn into_entry(self) -> (entry: MoveEntry)
        ensures
            entry@ == entry_of(self@),
    {
        MoveEntry { from: self.source, to: self.destination, category: self.category }
    }
}

impl FileOrganizer {
    #[verifier::type_invariant]
    spec fn holds_default_table(self) -> bool {
        table_view(self.categories@) == default_table()
    }

    /// What the organizer was set up with.
    pub closed spec fn view(&self) -> Settings {
        Settings {
            target_dir: self.target_dir@,
            recursive: self.recursive,
            dry_run: self.dry_run,
        }
    }

    /// An organizer for `target_dir` with the built-in table of categories.
    pub fn new(target_dir: FilePath, recursive: bool, dry_run: bool) -> (organizer: Self)
        ensures
            organizer@ == (Settings { target_dir: target_dir@, recursive, dry_run }),
    {
        let categories = Self::get_default_categories();
        FileOrganizer { categories, target_dir, recursive, dry_run }
    }

    /// The built-in table of categories.
    pub fn get_default_categories() -> (table: Vec<Category>)
        ensures
            table_view(table@) == default_table(),
    {
        default_categories()
    }

    /// The category of an extension, which the caller has put in lower case:
    /// the category of the built-in table that lists it, or `Others`.
    pub fn get_category_for_extension(&self, extension: &str) -> (category: &str)
        ensures
            category@ == category_of(extension@),
    {
        proof {
            use_type_invariant(self);
        }
        find_category(&self.categories, extension)
    }

    /// The category of an extension in any case: the extension is put in
    /// lower case and looked up, so `JPG` and `jpg` have one category.
    pub fn category_for(&self, extension: &str) -> (category: String)
        ensures
            category@ == category_of(lowercase(extension@)),
    {
        let lowered = to_lowercase(extension);
        String::from_str(self.get_category_for_extension(lowered.as_str()))
    }

    /// Where `source` goes at try number `attempt`, or `None` where its name
    /// has no extension to sort it by.
    pub fn place(&self, source: &FilePath, attempt: u64) -> (placed: Option<Placement>)
        ensures
            placed is Some <==> sortable(source@),
            placed is Some ==> Some(placed->0@) == placement_of(self@, source@, attempt as nat),
    {
        let name = match source.file_name() {
            None => {
                return None;
            },
            Some(name) => name,
        };
        let raw = match extension(name) {
            None => {
                return None;
            },
            Some(raw) => raw,
        };
        let category = self.category_for(raw.as_str());
        let directory = self.target_dir.join(category.as_str());
        let file_name = candidate(name, attempt);
        let destination = directory.join(file_name.as_str());
        Some(
            Placement {
                source: source.clone(),
                category,
                directory,
                attempt,
                destination,
            },
        )
    }

    /// The directory that is sorted.
    pub fn target_dir(&self) -> (path: &FilePath)
        ensures
            path@ == self@.target_dir,
    {
        &self.target_dir
    }

    /// Whether the walk goes into subdirectories.
    pub fn recursive(&self) -> (yes: bool)
        ensures
            yes == self@.recursive,
    {
        self.recursive
    }

    /// Whether the run only reports what it would do.
    pub fn dry_run(&self) -> (yes: bool)
        ensures
            yes == self@.dry_run,
    {
        self.dry_run
    }

    /// How many categories the built-in table has.
    pub fn category_count(&self) -> (count: usize)
        ensures
            count == default_table().len(),
    {
        proof {
            use_type_invariant(self);
        }
        assert(table_view(self.categories@).len() == self.categories@.len());
        self.categories.len()
    }

    /// The folder of the category at `index` of the built-in table, inside the
    /// target directory; `None` past the end of the table.
    pub fn category_folder(&self, index: usize) -> (folder: Option<FilePath>)
        ensures
            folder is Some <==> index < default_table().len(),
            folder is Some ==> folder->0@ == folder_of(self@, index as nat),
    {
        proof {
            use_type_invariant(self);
        }
        if index < self.categories.len() {
            assert(table_view(self.categories@)[index as int] == self.categories@[index as int]@);
            Some(self.target_dir.join(self.categories[index].name.as_str()))
        } else {
            None
        }
    }

    /// How deep the walk goes: only the directory itself, or everything below.
    pub fn max_depth(&self) -> (depth: usize)
        ensures
            depth == walk_depth(self@),
    {
        if self.recursive {
            usize::MAX
        } else {
            1
        }
    }

    /// Where the log of a run is kept: inside the target directory.
    pub fn log_path(&self) -> (path: FilePath)
        ensures
            path@ == log_path_of(self@),
    {
        self.target_dir.join(".folder_organizer_log.json")
    }

    /// What the driver is to do in `state`.
    pub fn next_request(&self, state: &OrganizeState) -> (request: Request)
        ensures
            request@ == organize_request(self@, state@),
    {
        match state {
            OrganizeState::CheckingTarget => Request::Inspect { path: self.target_dir.clone() },
            OrganizeState::Stamping => Request::ReadClock,
            OrganizeState::Walking { .. } => Request::NextEntry {
                root: self.target_dir.clone(),
                max_depth: self.max_depth(),
            },
            OrganizeState::CreatingDir { placement, .. } => Request::CreateDir {
                path: placement.directory.clone(),
            },
            OrganizeState::Probing { placement, .. } => Request::Probe {
                path: placement.destination.clone(),
            },
            OrganizeState::Moving { placement, .. } => Request::Rename {
                from: placement.source.clone(),
                to: placement.destination.clone(),
            },
            OrganizeState::Saving { .. } => Request::WriteLog { path: self.log_path() },
            _ => Request::Stop,
        }
    }

    /// One step of a run: takes the answer to the state's request and gives
    /// the state that follows.
    ///
    /// A run starts in `CheckingTarget`. A target that is missing or is no
    /// directory ends it with `InvalidTargetDir`. Then the clock is read, and
    /// its reading, written as RFC 3339 text in UTC, is the time of the log. Every entry of the walk that
    /// is a regular file is placed; one whose name has no extension ends the
    /// run with `NoExtensionError`, and what was moved before stays moved. A
    /// dry run records each file under its own name in its category folder and
    /// asks for nothing that changes the disk. Otherwise the folder is created,
    /// names are tried until one is free, the file is renamed and the move is
    /// recorded; when the walk ends the log is written. Any failure that the
    /// driver reports ends the run with the error of its kind.
    ///
    /// The tries of one file are counted in a `u64`: a state that has used
    /// them all may not be told of one more taken name.
    pub fn organize(&self, state: OrganizeState, event: Event) -> (next: OrganizeState)
        requires
            state@ is Probing && event@ == (EventView::Found { yes: true })
                ==> state@->Probing_placement.attempt < u64::MAX,
        ensures
            next@ == organize_next(self@, state@, event@),
            state@ is Stamping && next@ is Walking ==> well_stamped(next@.stamp()),
    {
        match state {
            OrganizeState::CheckingTarget => match event {
                Event::Target { exists, is_dir } => {
                    if exists && is_dir {
                        OrganizeState::Stamping
                    } else {
                        let moves: Vec<MoveEntry> = Vec::new();
                        assert(moves_view(moves@) =~= Seq::<MoveEntryView>::empty());
                        OrganizeState::Failed {
                            error: OrganizerError::InvalidTargetDir {
                                path: self.target_dir.clone(),
                            },
                            moves,
                        }
                    }
                },
                _ => OrganizeState::CheckingTarget,
            },
            OrganizeState::Stamping => match event {
                Event::Clock { seconds, nanos } => match rfc3339_utc(seconds, nanos) {
                    Some(stamp) => OrganizeState::Walking { log: MoveLog::new(stamp) },
                    None => OrganizeState::Stamping,
                },
                _ => OrganizeState::Stamping,
            },
            OrganizeState::Walking { log } => match event {
                Event::Entry { path, is_file } => {
                    if is_file {
                        self.process_file(path, log)
                    } else {
                        OrganizeState::Walking { log }
                    }
                },
                Event::WalkEnded => {
                    if self.dry_run {
                        OrganizeState::Finished { log }
                    } else {
                        OrganizeState::Saving { log }
                    }
                },
                Event::IoFailed { source } => OrganizeState::Failed {
                    error: OrganizerError::ReadDirError { path: self.target_dir.clone(), source },
                    moves: log.moves,
                },
                _ => OrganizeState::Walking { log },
            },
            OrganizeState::CreatingDir { log, placement } => match event {
                Event::Done => OrganizeState::Probing { log, placement },
                Event::IoFailed { source } => OrganizeState::Failed {
                    error: OrganizerError::CreateDirError { path: placement.directory, source },
                    moves: log.moves,
                },
                _ => OrganizeState::CreatingDir { log, placement },
            },
            OrganizeState::Probing { log, placement } => match event {
                Event::Found { yes } => {
                    if yes {
                        match self.place(&placement.source, placement.attempt + 1) {
                            None => OrganizeState::Failed {
                                error: OrganizerError::NoExtensionError { path: placement.source },
                                moves: log.moves,
                            },
                            Some(retry) => OrganizeState::Probing { log, placement: retry },
                        }
                    } else {
                        OrganizeState::Moving { log, placement }
                    }
                },
                _ => OrganizeState::Probing { log, placement },
            },
            OrganizeState::Moving { log, placement } => match event {
                Event::Done => {
                    let mut log = log;
                    log.record(placement.into_entry());
                    OrganizeState::Walking { log }
                },
                Event::IoFailed { source } => OrganizeState::Failed {
                    error: OrganizerError::MoveFileError {
                        from: placement.source,
                        to: placement.destination,
                        source,
                    },
                    moves: log.moves,
                },
                _ => OrganizeState::Moving { log, placement },
            },
            OrganizeState::Saving { log } => self.save_log(log, event),
            OrganizeState::Finished { log } => OrganizeState::Finished { log },
            OrganizeState::Failed { error, moves } => OrganizeState::Failed { error, moves },
        }
    }

    /// Takes up one regular file of the walk: finds its place, and in a dry
    /// run records it at once.
    fn process_file(&self, path: FilePath, log: MoveLog) -> (next: OrganizeState)
        ensures
            next@ == organize_next(
                self@,
                OrganizeStateView::Walking { log: log@ },
                EventView::Entry { path: path@, is_file: true },
            ),
    {
        match self.place(&path, 0) {
            None => OrganizeState::Failed {
                error: OrganizerError::NoExtensionError { path },
                moves: log.moves,
            },
            Some(placement) => {
                if self.dry_run {
                    let mut log = log;
                    log.record(placement.into_entry());
                    OrganizeState::Walking { log }
                } else {
                    OrganizeState::CreatingDir { log, placement }
                }
            },
        }
    }

    /// Ends a run on the answer to the request to write its log.
    fn save_log(&self, log: MoveLog, event: Event) -> (next: OrganizeState)
        ensures
            next@ == organize_next(
                self@,
                OrganizeStateView::Saving { log: log@ },
                event@,
            ),
    {
        match event {
            Event::Done => OrganizeState::Finished { log },
            Event::JsonFailed { source } => OrganizeState::Failed {
                error: OrganizerError::SerializationError { path: self.log_path(), source },
                moves: log.moves,
            },
            Event::IoFailed { source } => OrganizeState::Failed {
                error: OrganizerError::LogWriteError { path: self.log_path(), source },
                moves: log.moves,
            },
            _ => OrganizeState::Saving { log },
        }
    }
}

} // verus!
