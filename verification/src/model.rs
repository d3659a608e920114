//! A disk reduced to what a run can see and change, and a run played
//! against it: every request is answered by the disk and carried out on it.
//! The laws of the library are stated over such runs.

use vstd::prelude::*;
use crate::categories::default_table;
use crate::log::{MoveEntryView, MoveLogView};
use crate::names::{
    candidate_name, decimal, lemma_candidates_differ, lemma_decimal_reads_back, last_dot, stem_of,
};
use crate::paths::{file_name_of, parent_marker};
use crate::organizer::{
    entry_of, folder_of, log_path_of, organize_next, organize_request, placement_of, sortable,
    OrganizeStateView, Settings,
};
use crate::outside::rfc3339_of;
use crate::protocol::{EventView, RequestView};
use crate::undo::{undo_next, undo_request, UndoOutcome, UndoStateView};

verus! {

/// The disk: which file stands at which path (a file is known by a number
/// that it keeps when it is renamed), which folders exist, which paths hold a
/// log and what it says, and what the clock reads.
pub struct Disk {
    pub files: Map<Seq<Seq<char>>, int>,
    pub folders: Set<Seq<Seq<char>>>,
    pub logs: Map<Seq<Seq<char>>, MoveLogView>,
    pub seconds: i64,
    pub nanos: u32,
}

/// Whether `path` lies below `folder`, at any depth.
pub open spec fn is_under(path: Seq<Seq<char>>, folder: Seq<Seq<char>>) -> bool {
    folder.len() < path.len() && path.subrange(0, folder.len() as int) == folder
}

impl Disk {
    /// Whether anything stands at `path`.
    pub open spec fn holds(self, path: Seq<Seq<char>>) -> bool {
        self.files.contains_key(path) || self.folders.contains(path) || self.logs.contains_key(
            path,
        )
    }

    /// Whether `path` is a folder with nothing below it.
    pub open spec fn has_empty_folder(self, path: Seq<Seq<char>>) -> bool {
        self.folders.contains(path) && forall|other: Seq<Seq<char>>| #[trigger]
            self.holds(other) ==> !is_under(other, path)
    }
}

/// The files after the one at `from` was renamed to `to`.
pub open spec fn moved(
    files: Map<Seq<Seq<char>>, int>,
    from: Seq<Seq<char>>,
    to: Seq<Seq<char>>,
) -> Map<Seq<Seq<char>>, int> {
    if files.contains_key(from) {
        files.remove(from).insert(to, files[from])
    } else {
        files
    }
}

/// The files after the moves were made in order.
pub open spec fn replay(files: Map<Seq<Seq<char>>, int>, moves: Seq<MoveEntryView>) -> Map<
    Seq<Seq<char>>,
    int,
>
    decreases moves.len(),
{
    if moves.len() == 0 {
        files
    } else {
        moved(replay(files, moves.drop_last()), moves.last().from, moves.last().to)
    }
}

/// Whether each move, at its turn, took a file that was there to a path that
/// was free.
pub open spec fn sound(files: Map<Seq<Seq<char>>, int>, moves: Seq<MoveEntryView>) -> bool
    decreases moves.len(),
{
    moves.len() == 0 || {
        let before = replay(files, moves.drop_last());
        &&& sound(files, moves.drop_last())
        &&& before.contains_key(moves.last().from)
        &&& !before.contains_key(moves.last().to)
    }
}

/// What the disk answers to a request. The walk gives its entries in the
/// order of `walk`; an entry is a regular file where the disk has a file at
/// its path. Nothing fails on this disk.
pub open spec fn answer(
    disk: Disk,
    request: RequestView,
    walk: Seq<Seq<Seq<char>>>,
) -> EventView {
    match request {
        RequestView::Inspect { path } => EventView::Target {
            exists: disk.holds(path),
            is_dir: disk.folders.contains(path),
        },
        RequestView::ReadClock => EventView::Clock { seconds: disk.seconds, nanos: disk.nanos },
        RequestView::NextEntry { .. } => if walk.len() > 0 {
            EventView::Entry { path: walk[0], is_file: disk.files.contains_key(walk[0]) }
        } else {
            EventView::WalkEnded
        },
        RequestView::Probe { path } => EventView::Found { yes: disk.holds(path) },
        RequestView::ProbeEmptyDir { path } => EventView::Found {
            yes: disk.has_empty_folder(path),
        },
        RequestView::ReadLog { path } => if disk.logs.contains_key(path) {
            EventView::LogLoaded { log: disk.logs[path] }
        } else {
            EventView::LogMissing
        },
        _ => EventView::Done,
    }
}

/// What is left of the walk once the request was answered.
pub open spec fn walk_after(request: RequestView, walk: Seq<Seq<Seq<char>>>) -> Seq<
    Seq<Seq<char>>,
> {
    if request is NextEntry && walk.len() > 0 {
        walk.drop_first()
    } else {
        walk
    }
}

/// The disk after a request was carried out. `log` is the log that the asking
/// state holds, which `WriteLog` writes.
pub open spec fn effect(disk: Disk, request: RequestView, log: MoveLogView) -> Disk {
    match request {
        RequestView::CreateDir { path } => Disk { folders: disk.folders.insert(path), ..disk },
        RequestView::Rename { from, to } => Disk { files: moved(disk.files, from, to), ..disk },
        RequestView::WriteLog { path } => Disk { logs: disk.logs.insert(path, log), ..disk },
        RequestView::RemoveDir { path } => Disk { folders: disk.folders.remove(path), ..disk },
        RequestView::RemoveFile { path } => Disk {
            files: disk.files.remove(path),
            logs: disk.logs.remove(path),
            ..disk
        },
        _ => disk,
    }
}

/// The log that a state of a run holds; an empty one where it holds none.
pub open spec fn log_in(state: OrganizeStateView) -> MoveLogView {
    match state {
        OrganizeStateView::Walking { log } => log,
        OrganizeStateView::CreatingDir { log, .. } => log,
        OrganizeStateView::Probing { log, .. } => log,
        OrganizeStateView::Moving { log, .. } => log,
        OrganizeStateView::Saving { log } => log,
        OrganizeStateView::Finished { log } => log,
        _ => MoveLogView { timestamp: Seq::empty(), moves: Seq::empty() },
    }
}

/// The moves that a state of a run holds: those of its log, or those that a
/// failed run had recorded.
pub open spec fn moves_in(state: OrganizeStateView) -> Seq<MoveEntryView> {
    match state {
        OrganizeStateView::Failed { moves, .. } => moves,
        _ => log_in(state).moves,
    }
}

/// A run played against the disk for at most `steps` steps: the state it
/// reaches and the disk it leaves.
pub open spec fn organize_run(
    cfg: Settings,
    state: OrganizeStateView,
    disk: Disk,
    walk: Seq<Seq<Seq<char>>>,
    steps: nat,
) -> (OrganizeStateView, Disk)
    decreases steps,
{
    if steps == 0 || state.is_over() {
        (state, disk)
    } else {
        let request = organize_request(cfg, state);
        organize_run(
            cfg,
            organize_next(cfg, state, answer(disk, request, walk)),
            effect(disk, request, log_in(state)),
            walk_after(request, walk),
            (steps - 1) as nat,
        )
    }
}

/// An undo played against the disk for at most `steps` steps: the state it
/// reaches and the disk it leaves.
pub open spec fn undo_run(cfg: Settings, state: UndoStateView, disk: Disk, steps: nat) -> (
    UndoStateView,
    Disk,
)
    decreases steps,
{
    if steps == 0 || state.is_over() {
        (state, disk)
    } else {
        let request = undo_request(cfg, state);
        undo_run(
            cfg,
            undo_next(cfg, state, answer(disk, request, Seq::empty())),
            effect(disk, request, MoveLogView { timestamp: Seq::empty(), moves: Seq::empty() }),
            (steps - 1) as nat,
        )
    }
}

/// One more move at the end: the files change by that move, and the moves
/// stay sound where the move takes a file that is there to a free path.
pub proof fn lemma_replay_push(
    files: Map<Seq<Seq<char>>, int>,
    moves: Seq<MoveEntryView>,
    entry: MoveEntryView,
)
    ensures
        replay(files, moves.push(entry)) == moved(replay(files, moves), entry.from, entry.to),
        sound(files, moves.push(entry)) == (sound(files, moves) && replay(
            files,
            moves,
        ).contains_key(entry.from) && !replay(files, moves).contains_key(entry.to)),
{
    assert(moves.push(entry).drop_last() =~= moves);
}

/// The first moves of sound moves are sound.
pub proof fn lemma_sound_take(files: Map<Seq<Seq<char>>, int>, moves: Seq<MoveEntryView>, n: int)
    requires
        sound(files, moves),
        0 <= n <= moves.len(),
    ensures
        sound(files, moves.take(n)),
    decreases moves.len(),
{
    if n == moves.len() {
        assert(moves.take(n) =~= moves);
    } else {
        lemma_sound_take(files, moves.drop_last(), n);
        assert(moves.drop_last().take(n) =~= moves.take(n));
    }
}

/// Renaming the file of the last of some sound moves back gives the files
/// as they stood before that move.
pub proof fn lemma_take_back_last(
    files: Map<Seq<Seq<char>>, int>,
    moves: Seq<MoveEntryView>,
    n: int,
)
    requires
        sound(files, moves),
        0 < n <= moves.len(),
    ensures
        replay(files, moves.take(n)).contains_key(moves[n - 1].to),
        moved(replay(files, moves.take(n)), moves[n - 1].to, moves[n - 1].from) == replay(
            files,
            moves.take(n - 1),
        ),
{
    lemma_sound_take(files, moves, n);
    let upto = moves.take(n);
    assert(upto.drop_last() =~= moves.take(n - 1));
    assert(upto.last() == moves[n - 1]);
    let before = replay(files, moves.take(n - 1));
    let from = moves[n - 1].from;
    let to = moves[n - 1].to;
    assert(moved(moved(before, from, to), to, from) =~= before);
}

/// Whether none of the first `count` category folders is left empty.
pub open spec fn tidy_below(cfg: Settings, disk: Disk, count: nat) -> bool {
    forall|k: nat| k < count ==> !disk.has_empty_folder(#[trigger] folder_of(cfg, k))
}

/// Whether nothing stands where the log of a run is kept.
pub open spec fn without_log(cfg: Settings, disk: Disk) -> bool {
    !disk.files.contains_key(log_path_of(cfg)) && !disk.logs.contains_key(log_path_of(cfg))
}

/// What holds at every step of an undo. `origin` is the disk before the run
/// whose moves `log` holds.
pub open spec fn undo_on_course(
    cfg: Settings,
    origin: Disk,
    log: MoveLogView,
    state: UndoStateView,
    disk: Disk,
) -> bool {
    let written = origin.logs.insert(log_path_of(cfg), log);
    match state {
        UndoStateView::Loading => disk.files == replay(origin.files, log.moves) && disk.logs
            == written,
        UndoStateView::Probing { log: held, remaining } => {
            &&& held == log
            &&& 0 < remaining <= log.moves.len()
            &&& disk.files == replay(origin.files, log.moves.take(remaining as int))
            &&& disk.logs == written
        },
        UndoStateView::Restoring { log: held, remaining } => {
            &&& held == log
            &&& 0 < remaining <= log.moves.len()
            &&& disk.files == replay(origin.files, log.moves.take(remaining as int))
            &&& disk.logs == written
        },
        UndoStateView::Inspecting { index } => {
            &&& index < default_table().len()
            &&& disk.files == origin.files
            &&& disk.logs == written
            &&& tidy_below(cfg, disk, index)
        },
        UndoStateView::RemovingDir { index } => {
            &&& index < default_table().len()
            &&& disk.files == origin.files
            &&& disk.logs == written
            &&& tidy_below(cfg, disk, index)
        },
        UndoStateView::RemovingLog => {
            &&& disk.files == origin.files
            &&& disk.logs == written
            &&& tidy_below(cfg, disk, default_table().len())
        },
        UndoStateView::Finished { outcome } => {
            &&& outcome == UndoOutcome::Restored
            &&& disk.files == origin.files
            &&& disk.logs == origin.logs
            &&& tidy_below(cfg, disk, default_table().len())
        },
        UndoStateView::Failed { .. } => false,
    }
}

/// Something that is gone from the disk leaves every category folder as
/// tidy as it was, where it did not stand below one of them.
proof fn lemma_tidy_kept(cfg: Settings, disk: Disk, after: Disk, gone: Seq<Seq<char>>, count: nat)
    requires
        tidy_below(cfg, disk, count),
        gone.len() == cfg.target_dir.len() + 1,
        after.folders.subset_of(disk.folders),
        forall|other: Seq<Seq<char>>| #[trigger]
            disk.holds(other) && other != gone ==> after.holds(other),
    ensures
        tidy_below(cfg, after, count),
{
    assert forall|k: nat| k < count implies !after.has_empty_folder(#[trigger] folder_of(cfg, k)) by {
        let folder = folder_of(cfg, k);
        if after.folders.contains(folder) {
            assert(disk.folders.contains(folder));
            assert(!disk.has_empty_folder(folder));
            let other = choose|other: Seq<Seq<char>>| #[trigger]
                disk.holds(other) && is_under(other, folder);
            assert(other != gone);
            assert(after.holds(other));
        }
    }
}

/// One step of an undo keeps it on course.
proof fn lemma_undo_step(
    cfg: Settings,
    origin: Disk,
    log: MoveLogView,
    state: UndoStateView,
    disk: Disk,
)
    requires
        sound(origin.files, log.moves),
        without_log(cfg, origin),
        undo_on_course(cfg, origin, log, state, disk),
        !state.is_over(),
    ensures
        ({
            let request = undo_request(cfg, state);
            undo_on_course(
                cfg,
                origin,
                log,
                undo_next(cfg, state, answer(disk, request, Seq::empty())),
                effect(disk, request, MoveLogView { timestamp: Seq::empty(), moves: Seq::empty() }),
            )
        }),
{
    let request = undo_request(cfg, state);
    let after = effect(
        disk,
        request,
        MoveLogView { timestamp: Seq::empty(), moves: Seq::empty() },
    );
    let next = undo_next(cfg, state, answer(disk, request, Seq::empty()));
    let count = default_table().len();
    assert(log.moves.take(0) =~= Seq::<MoveEntryView>::empty());
    match state {
        UndoStateView::Loading => {
            assert(disk.logs.contains_key(log_path_of(cfg)));
            assert(log.moves.take(log.moves.len() as int) =~= log.moves);
        },
        UndoStateView::Probing { remaining, .. } => {
            lemma_take_back_last(origin.files, log.moves, remaining as int);
        },
        UndoStateView::Restoring { remaining, .. } => {
            lemma_take_back_last(origin.files, log.moves, remaining as int);
        },
        UndoStateView::Inspecting { index } => {
            if !disk.has_empty_folder(folder_of(cfg, index)) {
                assert(tidy_below(cfg, disk, index + 1));
            }
        },
        UndoStateView::RemovingDir { index } => {
            let gone = folder_of(cfg, index);
            lemma_tidy_kept(cfg, disk, after, gone, index);
            assert(!after.has_empty_folder(gone));
            assert(tidy_below(cfg, after, index + 1));
            if index + 1 >= count {
                assert(tidy_below(cfg, after, count));
            }
        },
        UndoStateView::RemovingLog => {
            lemma_tidy_kept(cfg, disk, after, log_path_of(cfg), count);
            assert(after.files =~= origin.files);
            assert(after.logs =~= origin.logs);
        },
        _ => {},
    }
}

/// An undo that is on course stays on course to wherever it gets.
proof fn lemma_undo_run(
    cfg: Settings,
    origin: Disk,
    log: MoveLogView,
    state: UndoStateView,
    disk: Disk,
    steps: nat,
)
    requires
        sound(origin.files, log.moves),
        without_log(cfg, origin),
        undo_on_course(cfg, origin, log, state, disk),
    ensures
        undo_on_course(
            cfg,
            origin,
            log,
            undo_run(cfg, state, disk, steps).0,
            undo_run(cfg, state, disk, steps).1,
        ),
    decreases steps,
{
    if steps > 0 && !state.is_over() {
        lemma_undo_step(cfg, origin, log, state, disk);
        let request = undo_request(cfg, state);
        lemma_undo_run(
            cfg,
            origin,
            log,
            undo_next(cfg, state, answer(disk, request, Seq::empty())),
            effect(disk, request, MoveLogView { timestamp: Seq::empty(), moves: Seq::empty() }),
            (steps - 1) as nat,
        );
    }
}

/// How many steps an undo still takes at most, for a log of `moves` moves.
pub open spec fn undo_budget(state: UndoStateView, moves: nat) -> nat {
    let folders = default_table().len();
    match state {
        UndoStateView::Loading => 2 * moves + 2 * folders + 2,
        UndoStateView::Probing { remaining, .. } => 2 * remaining + 2 * folders + 1,
        UndoStateView::Restoring { remaining, .. } => 2 * remaining + 2 * folders,
        UndoStateView::Inspecting { index } => (2 * (folders - index) + 1) as nat,
        UndoStateView::RemovingDir { index } => (2 * (folders - index)) as nat,
        UndoStateView::RemovingLog => 1,
        _ => 0,
    }
}

/// An undo that is on course and has as many steps as its budget comes to
/// its end.
proof fn lemma_undo_ends(
    cfg: Settings,
    origin: Disk,
    log: MoveLogView,
    state: UndoStateView,
    disk: Disk,
    steps: nat,
)
    requires
        sound(origin.files, log.moves),
        without_log(cfg, origin),
        undo_on_course(cfg, origin, log, state, disk),
        steps >= undo_budget(state, log.moves.len()),
    ensures
        undo_run(cfg, state, disk, steps).0.is_over(),
    decreases steps,
{
    if !state.is_over() {
        let request = undo_request(cfg, state);
        let next = undo_next(cfg, state, answer(disk, request, Seq::empty()));
        let after = effect(
            disk,
            request,
            MoveLogView { timestamp: Seq::empty(), moves: Seq::empty() },
        );
        lemma_undo_step(cfg, origin, log, state, disk);
        match state {
            UndoStateView::Loading => {
                assert(disk.logs.contains_key(log_path_of(cfg)));
            },
            UndoStateView::Probing { remaining, .. } => {
                lemma_take_back_last(origin.files, log.moves, remaining as int);
            },
            _ => {},
        }
        assert(undo_budget(next, log.moves.len()) < undo_budget(state, log.moves.len()));
        lemma_undo_ends(cfg, origin, log, next, after, (steps - 1) as nat);
    }
}

/// An undo of a log of sound moves needs no more than two steps for each
/// move, two for each category folder, and two more.
pub proof fn lemma_undo_comes_to_an_end(
    cfg: Settings,
    origin: Disk,
    log: MoveLogView,
    disk: Disk,
    steps: nat,
)
    requires
        sound(origin.files, log.moves),
        without_log(cfg, origin),
        disk.files == replay(origin.files, log.moves),
        disk.logs == origin.logs.insert(log_path_of(cfg), log),
        steps >= 2 * log.moves.len() + 2 * default_table().len() + 2,
    ensures
        undo_run(cfg, UndoStateView::Loading, disk, steps).0.is_over(),
{
    lemma_undo_ends(cfg, origin, log, UndoStateView::Loading, disk, steps);
}

/// Undo takes a run back. Let the moves of `log` be sound on the files of
/// `origin`, let the disk hold those files after the moves, and the log where
/// a run keeps it. Then an undo that comes to its end on that disk ends with
/// `Restored`; every file stands where it stood in `origin`; the log file is
/// gone; and no category folder is left empty.
pub proof fn lemma_undo_restores(
    cfg: Settings,
    origin: Disk,
    log: MoveLogView,
    disk: Disk,
    steps: nat,
)
    requires
        sound(origin.files, log.moves),
        without_log(cfg, origin),
        disk.files == replay(origin.files, log.moves),
        disk.logs == origin.logs.insert(log_path_of(cfg), log),
        undo_run(cfg, UndoStateView::Loading, disk, steps).0.is_over(),
    ensures
        undo_run(cfg, UndoStateView::Loading, disk, steps).0 == (UndoStateView::Finished {
            outcome: UndoOutcome::Restored,
        }),
        undo_run(cfg, UndoStateView::Loading, disk, steps).1.files == origin.files,
        undo_run(cfg, UndoStateView::Loading, disk, steps).1.logs == origin.logs,
        tidy_below(
            cfg,
            undo_run(cfg, UndoStateView::Loading, disk, steps).1,
            default_table().len(),
        ),
{
    lemma_undo_run(cfg, origin, log, UndoStateView::Loading, disk, steps);
}

/// Without a log there is nothing to undo: the undo ends at its first step
/// with `NothingToUndo` and leaves the disk as it is.
pub proof fn lemma_undo_without_log(cfg: Settings, disk: Disk, steps: nat)
    requires
        !disk.logs.contains_key(log_path_of(cfg)),
        steps > 0,
    ensures
        undo_run(cfg, UndoStateView::Loading, disk, steps) == (
            UndoStateView::Finished { outcome: UndoOutcome::NothingToUndo },
            disk,
        ),
{
    let request = undo_request(cfg, UndoStateView::Loading);
    let next = undo_next(cfg, UndoStateView::Loading, answer(disk, request, Seq::empty()));
    assert(next == UndoStateView::Finished { outcome: UndoOutcome::NothingToUndo });
    assert(undo_run(
        cfg,
        next,
        effect(disk, request, MoveLogView { timestamp: Seq::empty(), moves: Seq::empty() }),
        (steps - 1) as nat,
    ) == (next, disk));
}

/// Whether every move is that of a file to its own name in its category
/// folder: the destination that is tried first.
pub open spec fn first_choices(cfg: Settings, moves: Seq<MoveEntryView>) -> bool {
    forall|i: int|
        0 <= i < moves.len() ==> sortable(moves[i].from) && #[trigger] moves[i] == entry_of(
            placement_of(cfg, moves[i].from, 0)->0,
        )
}

/// Whether a move took a file into the folder of its category, under its own
/// name or one of its numbered names.
pub open spec fn is_placed(cfg: Settings, entry: MoveEntryView) -> bool {
    sortable(entry.from) && exists|attempt: nat|
        entry == entry_of((#[trigger] placement_of(cfg, entry.from, attempt))->0)
}

/// Whether every move took its file into the folder of its category.
pub open spec fn all_placed(cfg: Settings, moves: Seq<MoveEntryView>) -> bool {
    forall|i: int| 0 <= i < moves.len() ==> is_placed(cfg, #[trigger] moves[i])
}

/// Whether a placement is the one that its file has at its try.
pub open spec fn in_place(cfg: Settings, placement: crate::organizer::PlacementView) -> bool {
    placement_of(cfg, placement.source, placement.attempt) == Some(placement)
}

/// The folder that a move put its file into.
pub open spec fn directory_of(entry: MoveEntryView) -> Seq<Seq<char>> {
    entry.to.drop_last()
}

/// The folders once those of the moves were made.
pub open spec fn made_folders(folders: Set<Seq<Seq<char>>>, moves: Seq<MoveEntryView>) -> Set<
    Seq<Seq<char>>,
>
    decreases moves.len(),
{
    if moves.len() == 0 {
        folders
    } else {
        made_folders(folders, moves.drop_last()).insert(directory_of(moves.last()))
    }
}

/// The disk as move `i` of a run found it: the moves before it made, and its
/// own folder there.
pub open spec fn disk_at_move(origin: Disk, moves: Seq<MoveEntryView>, i: int) -> Disk {
    Disk {
        files: replay(origin.files, moves.take(i)),
        folders: made_folders(origin.folders, moves.take(i + 1)),
        ..origin
    }
}

/// Whether a move took its file to the first free one of its names on the
/// disk `then`: at try number `attempt` the name was free, and at every
/// lower number it was taken.
pub open spec fn first_free_at(cfg: Settings, then: Disk, entry: MoveEntryView, attempt: nat) -> bool {
    &&& entry == entry_of(placement_of(cfg, entry.from, attempt)->0)
    &&& !then.holds(entry.to)
    &&& forall|lower: nat|
        lower < attempt ==> then.holds(#[trigger] destination_of(cfg, entry.from, lower))
}

/// Whether a move took its file to the first free one of its names.
pub open spec fn first_free(cfg: Settings, then: Disk, entry: MoveEntryView) -> bool {
    sortable(entry.from) && exists|attempt: nat| first_free_at(cfg, then, entry, attempt)
}

/// Whether every move of a run took its file to the first of its names that
/// was free when its turn came.
pub open spec fn all_first_free(cfg: Settings, origin: Disk, moves: Seq<MoveEntryView>) -> bool {
    forall|i: int|
        0 <= i < moves.len() ==> first_free(cfg, disk_at_move(origin, moves, i), #[trigger] moves[i])
}

/// Whether every name below the try of a placement is taken.
pub open spec fn lower_names_taken(
    cfg: Settings,
    disk: Disk,
    placement: crate::organizer::PlacementView,
) -> bool {
    forall|lower: nat|
        lower < placement.attempt ==> disk.holds(
            #[trigger] destination_of(cfg, placement.source, lower),
        )
}

/// What holds at every step of a run that began on the disk `origin`.
pub open spec fn organize_on_course(
    cfg: Settings,
    origin: Disk,
    state: OrganizeStateView,
    disk: Disk,
) -> bool {
    let moves = moves_in(state);
    let as_logged = {
        &&& sound(origin.files, moves)
        &&& disk.files == replay(origin.files, moves)
        &&& all_placed(cfg, moves)
        &&& all_first_free(cfg, origin, moves)
        &&& disk.seconds == origin.seconds
        &&& disk.nanos == origin.nanos
    };
    let folders = made_folders(origin.folders, moves);
    if cfg.dry_run {
        &&& disk == origin
        &&& first_choices(cfg, moves)
        &&& state is CheckingTarget || state is Stamping || state is Walking || state is Finished
            || state is Failed
    } else {
        match state {
            OrganizeStateView::CheckingTarget => disk == origin,
            OrganizeStateView::Stamping => disk == origin,
            OrganizeStateView::Walking { .. } => {
                &&& as_logged
                &&& disk.logs == origin.logs
                &&& disk.folders == folders
            },
            OrganizeStateView::CreatingDir { placement, .. } => {
                &&& as_logged
                &&& in_place(cfg, placement)
                &&& placement.attempt == 0
                &&& disk.logs == origin.logs
                &&& disk.folders == folders
                &&& disk.files.contains_key(placement.source)
            },
            OrganizeStateView::Probing { placement, .. } => {
                &&& as_logged
                &&& in_place(cfg, placement)
                &&& disk.logs == origin.logs
                &&& disk.folders == folders.insert(placement.directory)
                &&& disk.files.contains_key(placement.source)
                &&& lower_names_taken(cfg, disk, placement)
            },
            OrganizeStateView::Moving { placement, .. } => {
                &&& as_logged
                &&& in_place(cfg, placement)
                &&& disk.logs == origin.logs
                &&& disk.folders == folders.insert(placement.directory)
                &&& disk.files.contains_key(placement.source)
                &&& lower_names_taken(cfg, disk, placement)
                &&& !disk.holds(placement.destination)
            },
            OrganizeStateView::Saving { .. } => {
                &&& as_logged
                &&& disk.logs == origin.logs
                &&& disk.folders == folders
            },
            OrganizeStateView::Finished { log } => {
                &&& as_logged
                &&& disk.logs == origin.logs.insert(log_path_of(cfg), log)
                &&& disk.folders == folders
            },
            OrganizeStateView::Failed { .. } => as_logged && disk.logs == origin.logs,
        }
    }
}

/// One step of a run keeps it on course.
proof fn lemma_organize_step(
    cfg: Settings,
    origin: Disk,
    state: OrganizeStateView,
    disk: Disk,
    walk: Seq<Seq<Seq<char>>>,
)
    requires
        organize_on_course(cfg, origin, state, disk),
        !state.is_over(),
    ensures
        ({
            let request = organize_request(cfg, state);
            organize_on_course(
                cfg,
                origin,
                organize_next(cfg, state, answer(disk, request, walk)),
                effect(disk, request, log_in(state)),
            )
        }),
{
    let request = organize_request(cfg, state);
    let event = answer(disk, request, walk);
    let next = organize_next(cfg, state, event);
    let after = effect(disk, request, log_in(state));
    let moves = moves_in(state);
    if cfg.dry_run {
        match state {
            OrganizeStateView::Walking { log } => {
                if let EventView::Entry { path, is_file } = event {
                    if is_file && sortable(path) {
                        let entry = entry_of(placement_of(cfg, path, 0)->0);
                        assert(moves_in(next) == moves.push(entry));
                        assert(first_choices(cfg, moves.push(entry)));
                    }
                }
            },
            _ => {},
        }
    } else {
        match state {
            OrganizeStateView::Moving { log, placement } => {
                let entry = entry_of(placement);
                let longer = moves.push(entry);
                lemma_replay_push(origin.files, moves, entry);
                assert(is_placed(cfg, entry));
                assert(all_placed(cfg, longer));
                assert(longer.drop_last() =~= moves);
                assert(directory_of(entry) =~= placement.directory);
                assert forall|i: int| 0 <= i < longer.len() implies first_free(
                    cfg,
                    disk_at_move(origin, longer, i),
                    #[trigger] longer[i],
                ) by {
                    if i < moves.len() {
                        assert(longer.take(i) =~= moves.take(i));
                        assert(longer.take(i + 1) =~= moves.take(i + 1));
                        assert(first_free(cfg, disk_at_move(origin, moves, i), moves[i]));
                    } else {
                        assert(longer.take(i) =~= moves);
                        assert(longer.take(i + 1) =~= longer);
                        assert(disk_at_move(origin, longer, i) == disk);
                        assert(first_free_at(cfg, disk, entry, placement.attempt));
                    }
                }
            },
            OrganizeStateView::Probing { log, placement } => {
                if let EventView::Found { yes } = event {
                    if yes && sortable(placement.source) {
                        let retry = placement_of(cfg, placement.source, placement.attempt + 1)->0;
                        assert forall|lower: nat| lower < retry.attempt implies after.holds(
                            #[trigger] destination_of(cfg, placement.source, lower),
                        ) by {
                            if lower == placement.attempt {
                                assert(destination_of(cfg, placement.source, lower)
                                    == placement.destination);
                            }
                        }
                    }
                }
            },
            OrganizeStateView::Stamping => {
                assert(made_folders(origin.folders, Seq::<MoveEntryView>::empty())
                    == origin.folders);
            },
            _ => {},
        }
    }
}

/// A run that is on course stays on course to wherever it gets.
proof fn lemma_organize_run(
    cfg: Settings,
    origin: Disk,
    state: OrganizeStateView,
    disk: Disk,
    walk: Seq<Seq<Seq<char>>>,
    steps: nat,
)
    requires
        organize_on_course(cfg, origin, state, disk),
    ensures
        organize_on_course(
            cfg,
            origin,
            organize_run(cfg, state, disk, walk, steps).0,
            organize_run(cfg, state, disk, walk, steps).1,
        ),
    decreases steps,
{
    if steps > 0 && !state.is_over() {
        lemma_organize_step(cfg, origin, state, disk, walk);
        let request = organize_request(cfg, state);
        lemma_organize_run(
            cfg,
            origin,
            organize_next(cfg, state, answer(disk, request, walk)),
            effect(disk, request, log_in(state)),
            walk_after(request, walk),
            (steps - 1) as nat,
        );
    }
}

/// A dry run changes nothing. However far it gets, the disk is as it was;
/// and every move in its log takes a file to its own name in its category
/// folder, which is the destination that a real run tries first.
pub proof fn lemma_dry_run_changes_nothing(
    cfg: Settings,
    disk: Disk,
    walk: Seq<Seq<Seq<char>>>,
    steps: nat,
)
    requires
        cfg.dry_run,
    ensures
        organize_run(cfg, OrganizeStateView::CheckingTarget, disk, walk, steps).1 == disk,
        first_choices(
            cfg,
            moves_in(
                organize_run(cfg, OrganizeStateView::CheckingTarget, disk, walk, steps).0,
            ),
        ),
{
    assert(first_choices(cfg, Seq::<MoveEntryView>::empty()));
    lemma_organize_run(cfg, disk, OrganizeStateView::CheckingTarget, disk, walk, steps);
}

/// In a dry run no state asks for anything that changes the disk, as long as
/// the run goes from state to state by its own steps.
pub proof fn lemma_dry_run_asks_no_change(
    cfg: Settings,
    state: OrganizeStateView,
    event: EventView,
)
    requires
        cfg.dry_run,
        state is CheckingTarget || state is Stamping || state is Walking || state is Finished
            || state is Failed,
    ensures
        !organize_request(cfg, state).changes_disk(),
        ({
            let next = organize_next(cfg, state, event);
            next is CheckingTarget || next is Stamping || next is Walking || next is Finished
                || next is Failed
        }),
{
}

/// The log of a dry run and the first try of a real run agree: for a file
/// that can be sorted, the dry run records the very destination that the
/// real run asks to have probed first.
pub proof fn lemma_dry_run_reports_first_try(
    dry: Settings,
    live: Settings,
    log: MoveLogView,
    path: Seq<Seq<char>>,
)
    requires
        dry.dry_run,
        !live.dry_run,
        dry.target_dir == live.target_dir,
        sortable(path),
    ensures
        ({
            let event = EventView::Entry { path, is_file: true };
            let reported = organize_next(dry, OrganizeStateView::Walking { log }, event);
            let begun = organize_next(live, OrganizeStateView::Walking { log }, event);
            &&& reported is Walking
            &&& begun is CreatingDir
            &&& log_in(reported).moves == log.moves.push(entry_of(begun->CreatingDir_placement))
            &&& organize_request(
                live,
                organize_next(live, begun, EventView::Done),
            ) == (RequestView::Probe { path: log_in(reported).moves.last().to })
        }),
{
}

/// A run that finishes has moved the files as its log says. Each move of
/// the log took a file that was there to a path that was free, and into the
/// folder of the file's category; the files stand as the moves leave them,
/// and the log is written where it is kept.
pub proof fn lemma_run_matches_log(
    cfg: Settings,
    disk: Disk,
    walk: Seq<Seq<Seq<char>>>,
    steps: nat,
)
    requires
        !cfg.dry_run,
        organize_run(cfg, OrganizeStateView::CheckingTarget, disk, walk, steps).0
            is Finished,
    ensures
        ({
            let end = organize_run(
                cfg,
                OrganizeStateView::CheckingTarget,
                disk,
                walk,
                steps,
            );
            let log = end.0->Finished_log;
            &&& sound(disk.files, log.moves)
            &&& all_placed(cfg, log.moves)
            &&& end.1.files == replay(disk.files, log.moves)
            &&& end.1.logs == disk.logs.insert(log_path_of(cfg), log)
        }),
{
    lemma_organize_run(cfg, disk, OrganizeStateView::CheckingTarget, disk, walk, steps);
}

/// The name chosen on a collision is the first free one. In a real run that
/// finishes, every move took its file to its own name in its category
/// folder if that was free when its turn came, and else to the numbered name
/// with the least number that was free then: every name with a lower number
/// was taken, and nothing stood at the destination, so nothing was
/// overwritten.
pub proof fn lemma_names_are_the_first_free(
    cfg: Settings,
    disk: Disk,
    walk: Seq<Seq<Seq<char>>>,
    steps: nat,
)
    requires
        !cfg.dry_run,
        organize_run(cfg, OrganizeStateView::CheckingTarget, disk, walk, steps).0 is Finished,
    ensures
        all_first_free(
            cfg,
            disk,
            organize_run(
                cfg,
                OrganizeStateView::CheckingTarget,
                disk,
                walk,
                steps,
            ).0->Finished_log.moves,
        ),
{
    lemma_organize_run(cfg, disk, OrganizeStateView::CheckingTarget, disk, walk, steps);
}

/// A run that fails rolls nothing back. The files stand as the moves that
/// the run had recorded when it failed leave them: each of those moves took a
/// file that was there to a path that was free, and none was taken back. No
/// log is written.
pub proof fn lemma_failed_run_keeps_moves(
    cfg: Settings,
    disk: Disk,
    walk: Seq<Seq<Seq<char>>>,
    steps: nat,
)
    requires
        !cfg.dry_run,
        organize_run(cfg, OrganizeStateView::CheckingTarget, disk, walk, steps).0 is Failed,
    ensures
        ({
            let end = organize_run(
                cfg,
                OrganizeStateView::CheckingTarget,
                disk,
                walk,
                steps,
            );
            let moves = end.0->Failed_moves;
            &&& sound(disk.files, moves)
            &&& all_placed(cfg, moves)
            &&& end.1.files == replay(disk.files, moves)
            &&& end.1.logs == disk.logs
        }),
{
    lemma_organize_run(cfg, disk, OrganizeStateView::CheckingTarget, disk, walk, steps);
}

/// A file whose name has no extension ends the run where it is met, with
/// `NoExtensionError` for its path, and the run asks for nothing more.
pub proof fn lemma_missing_extension_ends_run(
    cfg: Settings,
    log: MoveLogView,
    path: Seq<Seq<char>>,
)
    requires
        !sortable(path),
    ensures
        ({
            let next = organize_next(
                cfg,
                OrganizeStateView::Walking { log },
                EventView::Entry { path, is_file: true },
            );
            &&& next == (OrganizeStateView::Failed {
                error: crate::error::ErrorView::NoExtensionError { path },
                moves: log.moves,
            })
            &&& organize_request(cfg, next) == RequestView::Stop
        }),
{
}

/// Organize, then undo: the round trip. A real run that finishes on a disk
/// with no log from before, followed by an undo that comes to its end, puts
/// every file back where it stood, removes the log, and leaves no category
/// folder empty.
pub proof fn lemma_round_trip(
    cfg: Settings,
    disk: Disk,
    walk: Seq<Seq<Seq<char>>>,
    steps: nat,
    undo_steps: nat,
)
    requires
        !cfg.dry_run,
        without_log(cfg, disk),
        organize_run(cfg, OrganizeStateView::CheckingTarget, disk, walk, steps).0
            is Finished,
        undo_run(
            cfg,
            UndoStateView::Loading,
            organize_run(cfg, OrganizeStateView::CheckingTarget, disk, walk, steps).1,
            undo_steps,
        ).0.is_over(),
    ensures
        ({
            let organized = organize_run(
                cfg,
                OrganizeStateView::CheckingTarget,
                disk,
                walk,
                steps,
            ).1;
            let end = undo_run(cfg, UndoStateView::Loading, organized, undo_steps);
            &&& end.0 == (UndoStateView::Finished { outcome: UndoOutcome::Restored })
            &&& end.1.files == disk.files
            &&& end.1.logs == disk.logs
            &&& tidy_below(cfg, end.1, default_table().len())
        }),
{
    lemma_run_matches_log(cfg, disk, walk, steps);
    let run = organize_run(cfg, OrganizeStateView::CheckingTarget, disk, walk, steps);
    lemma_undo_restores(cfg, disk, run.0->Finished_log, run.1, undo_steps);
}

/// The paths that the moves took their files from, in order.
pub open spec fn sources(moves: Seq<MoveEntryView>) -> Seq<Seq<Seq<char>>> {
    Seq::new(moves.len(), |i: int| moves[i].from)
}

/// The file that a state is busy with: taken from the walk, not yet recorded.
pub open spec fn in_hand(state: OrganizeStateView) -> Seq<Seq<Seq<char>>> {
    match state {
        OrganizeStateView::CreatingDir { placement, .. } => seq![placement.source],
        OrganizeStateView::Probing { placement, .. } => seq![placement.source],
        OrganizeStateView::Moving { placement, .. } => seq![placement.source],
        _ => Seq::empty(),
    }
}

/// The entry that a step takes from the walk to sort: the next one, where
/// the state asks for it and the disk has a file there.
pub open spec fn taken_now(
    cfg: Settings,
    state: OrganizeStateView,
    disk: Disk,
    walk: Seq<Seq<Seq<char>>>,
) -> Seq<Seq<Seq<char>>> {
    if organize_request(cfg, state) is NextEntry && walk.len() > 0 && disk.files.contains_key(
        walk[0],
    ) {
        seq![walk[0]]
    } else {
        Seq::empty()
    }
}

/// The entries that a run takes from the walk to sort, in order: those at
/// which the disk has a file when the walk gives them.
pub open spec fn taken_up(
    cfg: Settings,
    state: OrganizeStateView,
    disk: Disk,
    walk: Seq<Seq<Seq<char>>>,
    steps: nat,
) -> Seq<Seq<Seq<char>>>
    decreases steps,
{
    if steps == 0 || state.is_over() {
        Seq::empty()
    } else {
        let request = organize_request(cfg, state);
        taken_now(cfg, state, disk, walk) + taken_up(
            cfg,
            organize_next(cfg, state, answer(disk, request, walk)),
            effect(disk, request, log_in(state)),
            walk_after(request, walk),
            (steps - 1) as nat,
        )
    }
}

/// The entries of a walk at which `files` has a file, in order.
pub open spec fn regular_files(
    files: Map<Seq<Seq<char>>, int>,
    walk: Seq<Seq<Seq<char>>>,
) -> Seq<Seq<Seq<char>>>
    decreases walk.len(),
{
    if walk.len() == 0 {
        Seq::empty()
    } else if files.contains_key(walk[0]) {
        seq![walk[0]] + regular_files(files, walk.drop_first())
    } else {
        regular_files(files, walk.drop_first())
    }
}

/// From any state on, a run that finishes records what it has in hand and
/// what it takes from the walk, each once and in that order.
proof fn lemma_sources_grow(
    cfg: Settings,
    state: OrganizeStateView,
    disk: Disk,
    walk: Seq<Seq<Seq<char>>>,
    steps: nat,
)
    requires
        organize_run(cfg, state, disk, walk, steps).0 is Finished,
    ensures
        sources(moves_in(organize_run(cfg, state, disk, walk, steps).0)) == sources(
            moves_in(state),
        ) + in_hand(state) + taken_up(cfg, state, disk, walk, steps),
    decreases steps,
{
    let end = organize_run(cfg, state, disk, walk, steps).0;
    if steps == 0 || state.is_over() {
        assert(sources(moves_in(end)) =~= sources(moves_in(state)) + in_hand(state) + taken_up(
            cfg,
            state,
            disk,
            walk,
            steps,
        ));
    } else {
        let request = organize_request(cfg, state);
        let next = organize_next(cfg, state, answer(disk, request, walk));
        let after = effect(disk, request, log_in(state));
        let rest = walk_after(request, walk);
        let now = taken_now(cfg, state, disk, walk);
        let later = taken_up(cfg, next, after, rest, (steps - 1) as nat);
        lemma_sources_grow(cfg, next, after, rest, (steps - 1) as nat);
        assert(!(next is Failed));
        assert(sources(moves_in(state)) + in_hand(state) + now =~= sources(moves_in(next))
            + in_hand(next));
        assert(sources(moves_in(state)) + in_hand(state) + (now + later) =~= sources(
            moves_in(state),
        ) + in_hand(state) + now + later);
    }
}

/// The moves of a run that finishes are those of the files that it took from
/// the walk: every entry at which the disk had a file when the walk gave it
/// was moved, once, in the order of the walk, and nothing else was.
pub proof fn lemma_moves_are_the_files_met(
    cfg: Settings,
    disk: Disk,
    walk: Seq<Seq<Seq<char>>>,
    steps: nat,
)
    requires
        organize_run(cfg, OrganizeStateView::CheckingTarget, disk, walk, steps).0
            is Finished,
    ensures
        sources(
            moves_in(
                organize_run(cfg, OrganizeStateView::CheckingTarget, disk, walk, steps).0,
            ),
        ) == taken_up(cfg, OrganizeStateView::CheckingTarget, disk, walk, steps),
{
    lemma_sources_grow(cfg, OrganizeStateView::CheckingTarget, disk, walk, steps);
    assert(sources(moves_in(OrganizeStateView::CheckingTarget)) + in_hand(
        OrganizeStateView::CheckingTarget,
    ) + taken_up(cfg, OrganizeStateView::CheckingTarget, disk, walk, steps) =~= taken_up(
        cfg,
        OrganizeStateView::CheckingTarget,
        disk,
        walk,
        steps,
    ));
}

/// Where the file `source` goes at try number `attempt`.
pub open spec fn destination_of(cfg: Settings, source: Seq<Seq<char>>, attempt: nat) -> Seq<
    Seq<char>,
>
    recommends
        sortable(source),
{
    placement_of(cfg, source, attempt)->0.destination
}

/// Whether no entry of the walk is a place where a file of the walk may go.
/// This holds of a walk that does not reach into a category folder.
pub open spec fn apart(cfg: Settings, walk: Seq<Seq<Seq<char>>>) -> bool {
    forall|i: int, j: int, attempt: nat|
        0 <= i < walk.len() && 0 <= j < walk.len() && sortable(walk[i]) ==> #[trigger]
            destination_of(cfg, walk[i], attempt) != #[trigger] walk[j]
}

/// A walk of the direct children of the target reaches into no category
/// folder: every place where a file may go lies one level deeper.
pub proof fn lemma_children_are_apart(cfg: Settings, walk: Seq<Seq<Seq<char>>>)
    requires
        forall|i: int| 0 <= i < walk.len() ==> (#[trigger] walk[i]).len() == cfg.target_dir.len() + 1,
    ensures
        apart(cfg, walk),
{
    assert forall|i: int, j: int, attempt: nat|
        0 <= i < walk.len() && 0 <= j < walk.len() && sortable(walk[i]) implies #[trigger]
        destination_of(cfg, walk[i], attempt) != #[trigger] walk[j] by {
        assert(destination_of(cfg, walk[i], attempt).len() == cfg.target_dir.len() + 2);
    }
}

/// What a run needs to know of the walk to take up exactly its files: the
/// entries up to `given` are given out, what is in hand is one of them, and
/// at every entry still to come the disk has a file exactly where it had one
/// when the run began.
pub open spec fn walk_on_course(
    origin: Disk,
    walk: Seq<Seq<Seq<char>>>,
    given: int,
    state: OrganizeStateView,
    disk: Disk,
) -> bool {
    &&& 0 <= given <= walk.len()
    &&& in_hand(state).len() > 0 ==> exists|i: int|
        0 <= i < given && #[trigger] walk[i] == in_hand(state)[0]
    &&& state is Saving || state is Finished ==> given == walk.len()
    &&& forall|j: int|
        given <= j < walk.len() ==> disk.files.contains_key(#[trigger] walk[j])
            == origin.files.contains_key(walk[j])
}

/// A run that finishes takes up the entries still to come at which the disk
/// had a file when the run began, where the walk gives no entry twice and
/// reaches into no category folder.
proof fn lemma_walk_is_taken_up(
    cfg: Settings,
    origin: Disk,
    walk: Seq<Seq<Seq<char>>>,
    given: int,
    state: OrganizeStateView,
    disk: Disk,
    steps: nat,
)
    requires
        organize_on_course(cfg, origin, state, disk),
        walk.no_duplicates(),
        apart(cfg, walk),
        walk_on_course(origin, walk, given, state, disk),
        organize_run(cfg, state, disk, walk.skip(given), steps).0 is Finished,
    ensures
        taken_up(cfg, state, disk, walk.skip(given), steps) == regular_files(
            origin.files,
            walk.skip(given),
        ),
    decreases steps,
{
    let left = walk.skip(given);
    if steps == 0 || state.is_over() {
        assert(left.len() == 0);
    } else {
        let request = organize_request(cfg, state);
        let next = organize_next(cfg, state, answer(disk, request, left));
        let after = effect(disk, request, log_in(state));
        let rest = walk_after(request, left);
        lemma_organize_step(cfg, origin, state, disk, left);
        assert(organize_run(cfg, state, disk, left, steps) == organize_run(
            cfg,
            next,
            after,
            rest,
            (steps - 1) as nat,
        ));
        assert(!(next is Failed));
        let given_next = if request is NextEntry && left.len() > 0 {
            given + 1
        } else {
            given
        };
        assert(rest =~= walk.skip(given_next));
        if request is NextEntry && left.len() > 0 {
            assert(left[0] == walk[given]);
            assert(left.drop_first() =~= walk.skip(given + 1));
        }
        if let OrganizeStateView::Moving { placement, .. } = state {
            if !cfg.dry_run {
                let i = choose|i: int| 0 <= i < given && #[trigger] walk[i] == placement.source;
                assert forall|j: int| given <= j < walk.len() implies after.files.contains_key(
                    #[trigger] walk[j],
                ) == origin.files.contains_key(walk[j]) by {
                    assert(destination_of(cfg, walk[i], placement.attempt) != walk[j]);
                    assert(walk[i] != walk[j]);
                }
            }
        }
        assert(walk_on_course(origin, walk, given_next, next, after));
        lemma_walk_is_taken_up(
            cfg,
            origin,
            walk,
            given_next,
            next,
            after,
            (steps - 1) as nat,
        );
    }
}

/// The moved files are exactly the regular files of the walk. Let the walk
/// give no entry twice and reach into no category folder. Then a run that
/// finishes has moved every entry of the walk at which the disk had a file
/// when the run began, once each and in the order of the walk, and has moved
/// nothing else. A dry run records those same files.
pub proof fn lemma_moves_are_the_regular_files(
    cfg: Settings,
    disk: Disk,
    walk: Seq<Seq<Seq<char>>>,
    steps: nat,
)
    requires
        walk.no_duplicates(),
        apart(cfg, walk),
        organize_run(cfg, OrganizeStateView::CheckingTarget, disk, walk, steps).0
            is Finished,
    ensures
        sources(
            moves_in(
                organize_run(cfg, OrganizeStateView::CheckingTarget, disk, walk, steps).0,
            ),
        ) == regular_files(disk.files, walk),
{
    assert(walk.skip(0) =~= walk);
    assert(first_choices(cfg, Seq::<MoveEntryView>::empty()));
    lemma_walk_is_taken_up(cfg, disk, walk, 0, OrganizeStateView::CheckingTarget, disk, steps);
    lemma_moves_are_the_files_met(cfg, disk, walk, steps);
}

/// Every regular file of a walk is an entry of the walk.
pub proof fn lemma_regular_files_are_entries(
    files: Map<Seq<Seq<char>>, int>,
    walk: Seq<Seq<Seq<char>>>,
    path: Seq<Seq<char>>,
)
    requires
        regular_files(files, walk).contains(path),
    ensures
        walk.contains(path),
    decreases walk.len(),
{
    if walk.len() > 0 {
        let rest = regular_files(files, walk.drop_first());
        let all = regular_files(files, walk);
        let k = choose|k: int| 0 <= k < all.len() && all[k] == path;
        if files.contains_key(walk[0]) && k == 0 {
            assert(walk[0] == path);
        } else {
            if files.contains_key(walk[0]) {
                assert(rest[k - 1] == path);
            } else {
                assert(rest[k] == path);
            }
            lemma_regular_files_are_entries(files, walk.drop_first(), path);
            let m = choose|m: int| 0 <= m < walk.drop_first().len() && walk.drop_first()[m] == path;
            assert(walk[m + 1] == path);
        }
    }
}

/// The regular files of a walk that gives no entry twice are all different,
/// so no file is moved twice.
pub proof fn lemma_regular_files_differ(
    files: Map<Seq<Seq<char>>, int>,
    walk: Seq<Seq<Seq<char>>>,
)
    requires
        walk.no_duplicates(),
    ensures
        regular_files(files, walk).no_duplicates(),
    decreases walk.len(),
{
    if walk.len() > 0 {
        let tail = walk.drop_first();
        let rest = regular_files(files, tail);
        lemma_regular_files_differ(files, tail);
        if files.contains_key(walk[0]) {
            let all = regular_files(files, walk);
            assert forall|a: int, b: int| 0 <= a < all.len() && 0 <= b < all.len() && a != b implies all[a]
                != all[b] by {
                if a == 0 || b == 0 {
                    let k = if a == 0 {
                        b
                    } else {
                        a
                    };
                    assert(rest[k - 1] == all[k]);
                    if all[k] == walk[0] {
                        lemma_regular_files_are_entries(files, tail, all[k]);
                        let m = choose|m: int| 0 <= m < tail.len() && tail[m] == walk[0];
                        assert(walk[m + 1] == walk[0]);
                    }
                } else {
                    assert(rest[a - 1] == all[a]);
                    assert(rest[b - 1] == all[b]);
                }
            }
        }
    }
}

/// A file that no move takes stays where it is, as it is: sound moves put
/// nothing in its place.
pub proof fn lemma_replay_keeps(
    files: Map<Seq<Seq<char>>, int>,
    moves: Seq<MoveEntryView>,
    path: Seq<Seq<char>>,
)
    requires
        sound(files, moves),
        files.contains_key(path),
        !sources(moves).contains(path),
    ensures
        replay(files, moves).contains_key(path),
        replay(files, moves)[path] == files[path],
    decreases moves.len(),
{
    if moves.len() > 0 {
        let front = moves.drop_last();
        assert forall|i: int| 0 <= i < front.len() implies sources(front)[i] != path by {
            assert(sources(moves)[i] == sources(front)[i]);
        }
        assert(sources(moves)[moves.len() - 1] == moves.last().from);
        lemma_replay_keeps(files, front, path);
    }
}

/// A run leaves alone what the walk does not give. Under the conditions of
/// `lemma_moves_are_the_regular_files`, every file that stood at a path
/// which is no entry of the walk stands there after a real run that
/// finishes: below the depth of the walk nothing is touched, and nothing
/// that was in a category folder is overwritten.
pub proof fn lemma_run_leaves_the_rest(
    cfg: Settings,
    disk: Disk,
    walk: Seq<Seq<Seq<char>>>,
    steps: nat,
    path: Seq<Seq<char>>,
)
    requires
        !cfg.dry_run,
        walk.no_duplicates(),
        apart(cfg, walk),
        organize_run(cfg, OrganizeStateView::CheckingTarget, disk, walk, steps).0
            is Finished,
        disk.files.contains_key(path),
        !walk.contains(path),
    ensures
        ({
            let after = organize_run(
                cfg,
                OrganizeStateView::CheckingTarget,
                disk,
                walk,
                steps,
            ).1;
            after.files.contains_key(path) && after.files[path] == disk.files[path]
        }),
{
    let end = organize_run(cfg, OrganizeStateView::CheckingTarget, disk, walk, steps);
    let moves = end.0->Finished_log.moves;
    lemma_run_matches_log(cfg, disk, walk, steps);
    lemma_moves_are_the_regular_files(cfg, disk, walk, steps);
    if sources(moves).contains(path) {
        lemma_regular_files_are_entries(disk.files, walk, path);
    }
    lemma_replay_keeps(disk.files, moves, path);
}

/// The log of a dry run is the log of a real run without the numbers. On
/// one disk and one walk, under the conditions of
/// `lemma_moves_are_the_regular_files`, a dry run and a real run that both
/// finish record the same files in the same order under the same
/// categories; the dry run gives each its own name in its category folder,
/// and the real run that name or one of its numbered names.
pub proof fn lemma_dry_log_matches_real_log(
    dry: Settings,
    live: Settings,
    disk: Disk,
    walk: Seq<Seq<Seq<char>>>,
    dry_steps: nat,
    live_steps: nat,
)
    requires
        dry.dry_run,
        !live.dry_run,
        dry.target_dir == live.target_dir,
        walk.no_duplicates(),
        apart(live, walk),
        organize_run(dry, OrganizeStateView::CheckingTarget, disk, walk, dry_steps).0
            is Finished,
        organize_run(live, OrganizeStateView::CheckingTarget, disk, walk, live_steps).0
            is Finished,
    ensures
        ({
            let reported = organize_run(
                dry,
                OrganizeStateView::CheckingTarget,
                disk,
                walk,
                dry_steps,
            ).0->Finished_log.moves;
            let made = organize_run(
                live,
                OrganizeStateView::CheckingTarget,
                disk,
                walk,
                live_steps,
            ).0->Finished_log.moves;
            &&& reported.len() == made.len()
            &&& forall|i: int|
                0 <= i < reported.len() ==> {
                    &&& (#[trigger] reported[i]).from == made[i].from
                    &&& reported[i].category == made[i].category
                    &&& reported[i].to == destination_of(live, made[i].from, 0)
                    &&& is_placed(live, made[i])
                }
        }),
{
    let reported = organize_run(
        dry,
        OrganizeStateView::CheckingTarget,
        disk,
        walk,
        dry_steps,
    ).0->Finished_log.moves;
    let made = organize_run(
        live,
        OrganizeStateView::CheckingTarget,
        disk,
        walk,
        live_steps,
    ).0->Finished_log.moves;
    assert(apart(dry, walk)) by {
        assert forall|i: int, j: int, attempt: nat|
            0 <= i < walk.len() && 0 <= j < walk.len() && sortable(walk[i]) implies #[trigger]
            destination_of(dry, walk[i], attempt) != #[trigger] walk[j] by {
            assert(destination_of(dry, walk[i], attempt) == destination_of(
                live,
                walk[i],
                attempt,
            ));
        }
    }
    lemma_moves_are_the_regular_files(dry, disk, walk, dry_steps);
    lemma_moves_are_the_regular_files(live, disk, walk, live_steps);
    lemma_dry_run_changes_nothing(dry, disk, walk, dry_steps);
    lemma_run_matches_log(live, disk, walk, live_steps);
    assert(sources(reported).len() == sources(made).len());
    assert forall|i: int| 0 <= i < reported.len() implies {
        &&& (#[trigger] reported[i]).from == made[i].from
        &&& reported[i].category == made[i].category
        &&& reported[i].to == destination_of(live, made[i].from, 0)
        &&& is_placed(live, made[i])
    } by {
        assert(sources(reported)[i] == sources(made)[i]);
        assert(is_placed(live, made[i]));
    }
}

/// What holds at every step of an undo of any log, sound or not: which log
/// is being taken back, and how far the cleanup has come.
pub open spec fn undo_cleaning_up(
    cfg: Settings,
    log: MoveLogView,
    state: UndoStateView,
    disk: Disk,
) -> bool {
    match state {
        UndoStateView::Loading => disk.logs.contains_key(log_path_of(cfg)) && disk.logs[log_path_of(
            cfg,
        )] == log,
        UndoStateView::Probing { log: held, remaining } => held == log && 0 < remaining
            <= log.moves.len(),
        UndoStateView::Restoring { log: held, remaining } => held == log && 0 < remaining
            <= log.moves.len(),
        UndoStateView::Inspecting { index } => index < default_table().len() && tidy_below(
            cfg,
            disk,
            index,
        ),
        UndoStateView::RemovingDir { index } => index < default_table().len() && tidy_below(
            cfg,
            disk,
            index,
        ),
        UndoStateView::RemovingLog => tidy_below(cfg, disk, default_table().len()),
        UndoStateView::Finished { outcome } => {
            &&& outcome == UndoOutcome::Restored
            &&& !disk.logs.contains_key(log_path_of(cfg))
            &&& tidy_below(cfg, disk, default_table().len())
        },
        UndoStateView::Failed { .. } => false,
    }
}

/// An undo of any log that has as many steps as its budget comes to its end,
/// and is cleaning up all the way.
proof fn lemma_undo_cleans_on(
    cfg: Settings,
    log: MoveLogView,
    state: UndoStateView,
    disk: Disk,
    steps: nat,
)
    requires
        undo_cleaning_up(cfg, log, state, disk),
        steps >= undo_budget(state, log.moves.len()),
    ensures
        undo_run(cfg, state, disk, steps).0.is_over(),
        undo_cleaning_up(
            cfg,
            log,
            undo_run(cfg, state, disk, steps).0,
            undo_run(cfg, state, disk, steps).1,
        ),
    decreases steps,
{
    if !state.is_over() {
        let request = undo_request(cfg, state);
        let next = undo_next(cfg, state, answer(disk, request, Seq::empty()));
        let after = effect(
            disk,
            request,
            MoveLogView { timestamp: Seq::empty(), moves: Seq::empty() },
        );
        let count = default_table().len();
        match state {
            UndoStateView::Inspecting { index } => {
                if !disk.has_empty_folder(folder_of(cfg, index)) {
                    assert(tidy_below(cfg, disk, index + 1));
                }
            },
            UndoStateView::RemovingDir { index } => {
                let gone = folder_of(cfg, index);
                lemma_tidy_kept(cfg, disk, after, gone, index);
                assert(!after.has_empty_folder(gone));
                assert(tidy_below(cfg, after, index + 1));
            },
            UndoStateView::RemovingLog => {
                lemma_tidy_kept(cfg, disk, after, log_path_of(cfg), count);
            },
            _ => {},
        }
        assert(undo_cleaning_up(cfg, log, next, after));
        assert(undo_budget(next, log.moves.len()) < undo_budget(state, log.moves.len()));
        lemma_undo_cleans_on(cfg, log, next, after, (steps - 1) as nat);
    }
}

/// Undo cleans up after any log. Whatever the log at its place says, and
/// whether or not its files still stand where it says, an undo of two steps
/// for each move, two for each category folder, and two more comes to its
/// end with `Restored`; the log file is gone, and no category folder is left
/// empty.
pub proof fn lemma_undo_cleans_up(cfg: Settings, disk: Disk, steps: nat)
    requires
        disk.logs.contains_key(log_path_of(cfg)),
        steps >= 2 * disk.logs[log_path_of(cfg)].moves.len() + 2 * default_table().len() + 2,
    ensures
        undo_run(cfg, UndoStateView::Loading, disk, steps).0 == (UndoStateView::Finished {
            outcome: UndoOutcome::Restored,
        }),
        !undo_run(cfg, UndoStateView::Loading, disk, steps).1.logs.contains_key(log_path_of(cfg)),
        tidy_below(
            cfg,
            undo_run(cfg, UndoStateView::Loading, disk, steps).1,
            default_table().len(),
        ),
{
    lemma_undo_cleans_on(cfg, disk.logs[log_path_of(cfg)], UndoStateView::Loading, disk, steps);
}

/// Sound moves whose destinations no later move takes away leave every
/// destination standing, and no two destinations are one path.
pub proof fn lemma_destinations_stand(files: Map<Seq<Seq<char>>, int>, moves: Seq<MoveEntryView>)
    requires
        sound(files, moves),
        forall|i: int, j: int| 0 <= i < j < moves.len() ==> moves[j].from != moves[i].to,
    ensures
        forall|i: int| 0 <= i < moves.len() ==> replay(files, moves).contains_key(#[trigger] moves[i].to),
        forall|i: int, j: int| 0 <= i < j < moves.len() ==> moves[i].to != moves[j].to,
    decreases moves.len(),
{
    if moves.len() > 0 {
        let front = moves.drop_last();
        let last = moves.last();
        assert forall|i: int, j: int| 0 <= i < j < front.len() implies front[j].from
            != front[i].to by {
            assert(moves[j].from != moves[i].to);
        }
        lemma_destinations_stand(files, front);
        let before = replay(files, front);
        assert forall|i: int| 0 <= i < moves.len() implies replay(files, moves).contains_key(
            #[trigger] moves[i].to,
        ) by {
            if i < front.len() {
                assert(before.contains_key(front[i].to));
                assert(moves[moves.len() - 1].from != moves[i].to);
            }
        }
        assert forall|i: int, j: int| 0 <= i < j < moves.len() implies moves[i].to
            != moves[j].to by {
            assert(before.contains_key(front[i].to));
            if j < front.len() {
                assert(front[i].to != front[j].to);
            }
        }
    }
}

/// Every moved file stands at its destination when the run is over, and no
/// two files share one: under the conditions of `lemma_moves_are_the_regular_files`,
/// every destination in the log of a real run that finishes holds a file on
/// the disk that the run leaves, and all the destinations differ.
pub proof fn lemma_moved_files_stand_apart(
    cfg: Settings,
    disk: Disk,
    walk: Seq<Seq<Seq<char>>>,
    steps: nat,
)
    requires
        !cfg.dry_run,
        walk.no_duplicates(),
        apart(cfg, walk),
        organize_run(cfg, OrganizeStateView::CheckingTarget, disk, walk, steps).0 is Finished,
    ensures
        ({
            let end = organize_run(cfg, OrganizeStateView::CheckingTarget, disk, walk, steps);
            let moves = end.0->Finished_log.moves;
            &&& forall|i: int| 0 <= i < moves.len() ==> end.1.files.contains_key(#[trigger] moves[i].to)
            &&& forall|i: int, j: int| 0 <= i < j < moves.len() ==> moves[i].to != moves[j].to
        }),
{
    let end = organize_run(cfg, OrganizeStateView::CheckingTarget, disk, walk, steps);
    let moves = end.0->Finished_log.moves;
    lemma_run_matches_log(cfg, disk, walk, steps);
    lemma_moves_are_the_regular_files(cfg, disk, walk, steps);
    assert forall|i: int, j: int| 0 <= i < j < moves.len() implies moves[j].from != moves[i].to by {
        assert(sources(moves)[i] == moves[i].from);
        assert(sources(moves)[j] == moves[j].from);
        assert(regular_files(disk.files, walk).contains(moves[i].from));
        assert(regular_files(disk.files, walk).contains(moves[j].from));
        lemma_regular_files_are_entries(disk.files, walk, moves[i].from);
        lemma_regular_files_are_entries(disk.files, walk, moves[j].from);
        let a = choose|a: int| 0 <= a < walk.len() && walk[a] == moves[i].from;
        let b = choose|b: int| 0 <= b < walk.len() && walk[b] == moves[j].from;
        assert(is_placed(cfg, moves[i]));
        let k = choose|k: nat|
            moves[i] == entry_of((#[trigger] placement_of(cfg, moves[i].from, k))->0);
        assert(destination_of(cfg, walk[a], k) != walk[b]);
    }
    lemma_destinations_stand(disk.files, moves);
}

/// A `.` in a name puts its last `.` at that place or behind it.
proof fn lemma_dot_is_found(name: Seq<char>, at: int)
    requires
        0 <= at < name.len(),
        name[at] == '.',
    ensures
        last_dot(name) >= at,
    decreases name.len(),
{
    if name.last() != '.' {
        lemma_dot_is_found(name.drop_last(), at);
    }
}

/// Every place where a file may go is a file that can be sorted itself: it
/// has a name, and the name has an extension.
pub proof fn lemma_destination_is_sortable(cfg: Settings, source: Seq<Seq<char>>, attempt: nat)
    requires
        sortable(source),
    ensures
        sortable(destination_of(cfg, source, attempt)),
        destination_of(cfg, source, attempt).last() == candidate_name(
            file_name_of(source)->0,
            attempt,
        ),
{
    let name = file_name_of(source)->0;
    let chosen = candidate_name(name, attempt);
    let destination = destination_of(cfg, source, attempt);
    assert(destination.last() == chosen);
    if attempt > 0 {
        let stem = stem_of(name);
        lemma_decimal_reads_back(attempt);
        let at = stem.len() + 1 + decimal(attempt).len();
        assert(chosen[at as int] == '.');
        lemma_dot_is_found(chosen, at as int);
        assert(chosen.len() >= 3);
        assert(chosen != parent_marker());
    }
}

/// Two tries give a file two places.
pub proof fn lemma_destinations_differ(
    cfg: Settings,
    source: Seq<Seq<char>>,
    first: nat,
    second: nat,
)
    requires
        sortable(source),
        first != second,
    ensures
        destination_of(cfg, source, first) != destination_of(cfg, source, second),
{
    lemma_candidates_differ(file_name_of(source)->0, first, second);
    lemma_destination_is_sortable(cfg, source, first);
    lemma_destination_is_sortable(cfg, source, second);
}

/// Everything that the disk holds.
pub open spec fn crowd(disk: Disk) -> Set<Seq<Seq<char>>> {
    Set::new(|path: Seq<Seq<char>>| disk.holds(path))
}

/// The places that the first `count` tries give a file.
pub open spec fn tries(cfg: Settings, source: Seq<Seq<char>>, count: nat) -> Set<Seq<Seq<char>>>
    decreases count,
{
    if count == 0 {
        Set::empty()
    } else {
        tries(cfg, source, (count - 1) as nat).insert(
            destination_of(cfg, source, (count - 1) as nat),
        )
    }
}

/// Whether `path` is one of the places of the first `count` tries.
pub open spec fn is_try(cfg: Settings, source: Seq<Seq<char>>, count: nat, path: Seq<Seq<char>>) -> bool {
    exists|attempt: nat| attempt < count && path == #[trigger] destination_of(cfg, source, attempt)
}

/// The first `count` tries give `count` places.
proof fn lemma_tries_count(cfg: Settings, source: Seq<Seq<char>>, count: nat)
    requires
        sortable(source),
    ensures
        tries(cfg, source, count).finite(),
        tries(cfg, source, count).len() == count,
        forall|path: Seq<Seq<char>>|
            tries(cfg, source, count).contains(path) ==> is_try(cfg, source, count, path),
    decreases count,
{
    if count > 0 {
        let fewer = (count - 1) as nat;
        let added = destination_of(cfg, source, fewer);
        lemma_tries_count(cfg, source, fewer);
        if tries(cfg, source, fewer).contains(added) {
            assert(is_try(cfg, source, fewer, added));
            let attempt = choose|attempt: nat|
                attempt < fewer && added == #[trigger] destination_of(cfg, source, attempt);
            lemma_destinations_differ(cfg, source, attempt, fewer);
        }
        assert forall|path: Seq<Seq<char>>| tries(cfg, source, count).contains(path) implies is_try(
            cfg,
            source,
            count,
            path,
        ) by {
            if path == added {
                assert(path == destination_of(cfg, source, fewer));
            } else {
                assert(is_try(cfg, source, fewer, path));
                let attempt = choose|attempt: nat|
                    attempt < fewer && path == #[trigger] destination_of(cfg, source, attempt);
                assert(attempt < count);
            }
        }
    }
}

/// A file cannot find more of its names taken than the disk holds things.
pub proof fn lemma_tries_are_bounded(
    cfg: Settings,
    disk: Disk,
    placement: crate::organizer::PlacementView,
)
    requires
        sortable(placement.source),
        lower_names_taken(cfg, disk, placement),
        crowd(disk).finite(),
    ensures
        placement.attempt <= crowd(disk).len(),
{
    let taken = tries(cfg, placement.source, placement.attempt);
    lemma_tries_count(cfg, placement.source, placement.attempt);
    assert forall|path: Seq<Seq<char>>| taken.contains(path) implies crowd(disk).contains(path) by {
        assert(is_try(cfg, placement.source, placement.attempt, path));
        let attempt = choose|attempt: nat|
            attempt < placement.attempt && path == #[trigger] destination_of(
                cfg,
                placement.source,
                attempt,
            );
        assert(disk.holds(destination_of(cfg, placement.source, attempt)));
    }
    vstd::set_lib::lemma_len_subset(taken, crowd(disk));
}

/// How many steps the entries of the walk from `given` on take at most, and
/// the end of the run after them, on a disk that held `crowded` things when
/// the run began. An entry takes a step to be given, one for its folder, one
/// for each name that may be taken, one for the free name, and one for the
/// rename.
pub open spec fn rest_budget(crowded: nat, given: nat, length: nat) -> nat
    decreases length - given,
{
    if given >= length {
        2
    } else {
        crowded + 2 * given + 5 + rest_budget(crowded, given + 1, length)
    }
}

/// How many steps a run still takes at most, once `given` entries of a walk
/// of `length` were given out.
pub open spec fn run_budget(state: OrganizeStateView, crowded: nat, given: nat, length: nat) -> nat {
    match state {
        OrganizeStateView::CheckingTarget => 2 + rest_budget(crowded, 0, length),
        OrganizeStateView::Stamping => 1 + rest_budget(crowded, 0, length),
        OrganizeStateView::Walking { .. } => rest_budget(crowded, given, length),
        OrganizeStateView::CreatingDir { .. } => crowded + 2 * given + 2 + rest_budget(
            crowded,
            given,
            length,
        ),
        OrganizeStateView::Probing { placement, .. } => (crowded + 2 * given + 1
            - placement.attempt) as nat + rest_budget(crowded, given, length),
        OrganizeStateView::Moving { .. } => 1 + rest_budget(crowded, given, length),
        OrganizeStateView::Saving { .. } => 1,
        _ => 0,
    }
}

/// How many things the disk holds at most in a state of a run.
pub open spec fn crowd_cap(state: OrganizeStateView, crowded: nat, given: nat) -> nat {
    match state {
        OrganizeStateView::CreatingDir { .. } => (crowded + 2 * given - 2) as nat,
        OrganizeStateView::Probing { .. } => (crowded + 2 * given - 1) as nat,
        OrganizeStateView::Moving { .. } => (crowded + 2 * given - 1) as nat,
        OrganizeStateView::Finished { .. } => crowded + 2 * given + 1,
        _ => crowded + 2 * given,
    }
}

/// Whether every file of the walk can be sorted.
pub open spec fn all_sortable(files: Map<Seq<Seq<char>>, int>, walk: Seq<Seq<Seq<char>>>) -> bool {
    forall|i: int| 0 <= i < walk.len() && files.contains_key(#[trigger] walk[i]) ==> sortable(walk[i])
}

/// What keeps a run going to its end: the target is a folder, the clock can
/// be written, the disk holds finitely many things, and every file that the
/// walk may give can be sorted.
pub open spec fn going_on(
    cfg: Settings,
    origin: Disk,
    walk: Seq<Seq<Seq<char>>>,
    given: nat,
    state: OrganizeStateView,
    disk: Disk,
) -> bool {
    &&& given <= walk.len()
    &&& !(state is Failed)
    &&& state is CreatingDir || state is Probing || state is Moving ==> given >= 1
    &&& state is CheckingTarget ==> disk.folders.contains(cfg.target_dir)
    &&& state is CheckingTarget || state is Stamping ==> given == 0 && rfc3339_of(
        disk.seconds,
        disk.nanos,
    ) is Some
    &&& crowd(origin).finite()
    &&& crowd(disk).finite()
    &&& crowd(disk).len() <= crowd_cap(state, crowd(origin).len(), given)
    &&& all_sortable(origin.files, walk)
    &&& forall|path: Seq<Seq<char>>| #[trigger]
        disk.files.contains_key(path) ==> origin.files.contains_key(path) || sortable(path)
}

/// One more thing on the disk makes its crowd one larger at most.
proof fn lemma_crowd_grows_by_one(disk: Disk, after: Disk, added: Seq<Seq<char>>)
    requires
        crowd(disk).finite(),
        forall|path: Seq<Seq<char>>| #[trigger] after.holds(path) ==> disk.holds(path) || path == added,
    ensures
        crowd(after).finite(),
        crowd(after).len() <= crowd(disk).len() + 1,
{
    assert(crowd(after).subset_of(crowd(disk).insert(added))) by {
        assert forall|path: Seq<Seq<char>>| crowd(after).contains(path) implies crowd(disk).insert(
            added,
        ).contains(path) by {
            assert(after.holds(path));
        }
    }
    vstd::set_lib::lemma_len_subset(crowd(after), crowd(disk).insert(added));
}

/// A run that has what keeps it going, and as many steps as its budget,
/// finishes.
proof fn lemma_run_goes_on(
    cfg: Settings,
    origin: Disk,
    walk: Seq<Seq<Seq<char>>>,
    given: nat,
    state: OrganizeStateView,
    disk: Disk,
    steps: nat,
)
    requires
        organize_on_course(cfg, origin, state, disk),
        going_on(cfg, origin, walk, given, state, disk),
        steps >= run_budget(state, crowd(origin).len(), given, walk.len()),
    ensures
        organize_run(cfg, state, disk, walk.skip(given as int), steps).0 is Finished,
    decreases steps,
{
    if !(state is Finished) {
        let crowded = crowd(origin).len();
        let length = walk.len();
        let left = walk.skip(given as int);
        let request = organize_request(cfg, state);
        let event = answer(disk, request, left);
        let next = organize_next(cfg, state, event);
        let after = effect(disk, request, log_in(state));
        let rest = walk_after(request, left);
        let given_next: nat = if request is NextEntry && left.len() > 0 {
            given + 1
        } else {
            given
        };
        assert(rest =~= walk.skip(given_next as int));
        if let OrganizeStateView::Probing { placement, .. } = state {
            lemma_tries_are_bounded(cfg, disk, placement);
        }
        assert(run_budget(state, crowded, given, length) >= 1);
        lemma_organize_step(cfg, origin, state, disk, left);
        match state {
            OrganizeStateView::Walking { .. } => {
                if left.len() > 0 {
                    assert(left[0] == walk[given as int]);
                }
            },
            OrganizeStateView::CreatingDir { placement, .. } => {
                lemma_crowd_grows_by_one(disk, after, placement.directory);
            },
            OrganizeStateView::Probing { placement, .. } => {
                if let OrganizeStateView::Probing { placement: retry, .. } = next {
                    lemma_tries_are_bounded(cfg, after, retry);
                }
            },
            OrganizeStateView::Moving { placement, .. } => {
                lemma_crowd_grows_by_one(disk, after, placement.destination);
                lemma_destination_is_sortable(cfg, placement.source, placement.attempt);
            },
            OrganizeStateView::Saving { .. } => {
                lemma_crowd_grows_by_one(disk, after, log_path_of(cfg));
            },
            _ => {},
        }
        assert(going_on(cfg, origin, walk, given_next, next, after));
        assert(run_budget(next, crowded, given_next, length) < run_budget(
            state,
            crowded,
            given,
            length,
        ));
        lemma_run_goes_on(cfg, origin, walk, given_next, next, after, (steps - 1) as nat);
    }
}

/// A run that nothing stops finishes. Let the target be a folder, the clock
/// read a time that can be written, the disk hold finitely many things, and
/// every file of the walk have an extension. Then a run of as many steps as
/// its budget finishes, dry or not: counting up always reaches a free name.
pub proof fn lemma_run_finishes(cfg: Settings, disk: Disk, walk: Seq<Seq<Seq<char>>>, steps: nat)
    requires
        disk.folders.contains(cfg.target_dir),
        rfc3339_of(disk.seconds, disk.nanos) is Some,
        crowd(disk).finite(),
        all_sortable(disk.files, walk),
        steps >= run_budget(
            OrganizeStateView::CheckingTarget,
            crowd(disk).len(),
            0,
            walk.len(),
        ),
    ensures
        organize_run(cfg, OrganizeStateView::CheckingTarget, disk, walk, steps).0 is Finished,
{
    assert(walk.skip(0) =~= walk);
    assert(first_choices(cfg, Seq::<MoveEntryView>::empty()));
    lemma_run_goes_on(cfg, disk, walk, 0, OrganizeStateView::CheckingTarget, disk, steps);
}

/// Whether nothing stands in the way of a run: the target is a folder, the
/// clock reads a time that can be written, the disk holds finitely many
/// things, every file of the walk has an extension, and the walk gives no
/// entry twice and reaches into no category folder.
pub open spec fn in_order(cfg: Settings, disk: Disk, walk: Seq<Seq<Seq<char>>>) -> bool {
    &&& disk.folders.contains(cfg.target_dir)
    &&& rfc3339_of(disk.seconds, disk.nanos) is Some
    &&& crowd(disk).finite()
    &&& all_sortable(disk.files, walk)
    &&& walk.no_duplicates()
    &&& apart(cfg, walk)
}

/// How many steps a run takes at most from its start.
pub open spec fn whole_budget(disk: Disk, walk: Seq<Seq<Seq<char>>>) -> nat {
    run_budget(OrganizeStateView::CheckingTarget, crowd(disk).len(), 0, walk.len())
}

/// A real run with everything in order. It finishes; the files it moved are
/// exactly the regular files of the walk, each once and in the order of the
/// walk; each went into the folder of its category inside the target, to
/// the first of its names that was free; every other file stands where it
/// stood, with what it held; and the log is written. With a walk of the
/// direct children of the target, which `lemma_children_are_apart` shows to
/// reach into no category folder, this is the plain run; with a walk of
/// everything below, the recursive one.
pub proof fn lemma_run_in_order(cfg: Settings, disk: Disk, walk: Seq<Seq<Seq<char>>>, steps: nat)
    requires
        !cfg.dry_run,
        in_order(cfg, disk, walk),
        steps >= whole_budget(disk, walk),
    ensures
        ({
            let end = organize_run(cfg, OrganizeStateView::CheckingTarget, disk, walk, steps);
            let log = end.0->Finished_log;
            &&& end.0 is Finished
            &&& sources(log.moves) == regular_files(disk.files, walk)
            &&& all_placed(cfg, log.moves)
            &&& all_first_free(cfg, disk, log.moves)
            &&& end.1.files == replay(disk.files, log.moves)
            &&& end.1.logs == disk.logs.insert(log_path_of(cfg), log)
            &&& forall|path: Seq<Seq<char>>|
                disk.files.contains_key(path) && !walk.contains(path) ==> #[trigger]
                    end.1.files.contains_key(path) && end.1.files[path] == disk.files[path]
        }),
{
    let end = organize_run(cfg, OrganizeStateView::CheckingTarget, disk, walk, steps);
    lemma_run_finishes(cfg, disk, walk, steps);
    lemma_run_matches_log(cfg, disk, walk, steps);
    lemma_names_are_the_first_free(cfg, disk, walk, steps);
    lemma_moves_are_the_regular_files(cfg, disk, walk, steps);
    assert forall|path: Seq<Seq<char>>|
        disk.files.contains_key(path) && !walk.contains(path) implies #[trigger]
        end.1.files.contains_key(path) && end.1.files[path] == disk.files[path] by {
        lemma_run_leaves_the_rest(cfg, disk, walk, steps, path);
    }
}

/// A dry run with everything in order. It finishes and leaves the disk as
/// it was; and its log is that of the real run on the same disk and walk,
/// without the numbers: the same files in the same order under the same
/// categories, each at its own name in its category folder.
pub proof fn lemma_dry_run_in_order(
    dry: Settings,
    live: Settings,
    disk: Disk,
    walk: Seq<Seq<Seq<char>>>,
    steps: nat,
)
    requires
        dry.dry_run,
        !live.dry_run,
        dry.target_dir == live.target_dir,
        in_order(live, disk, walk),
        steps >= whole_budget(disk, walk),
    ensures
        ({
            let reported = organize_run(dry, OrganizeStateView::CheckingTarget, disk, walk, steps);
            let made = organize_run(live, OrganizeStateView::CheckingTarget, disk, walk, steps);
            &&& reported.0 is Finished
            &&& made.0 is Finished
            &&& reported.1 == disk
            &&& reported.0->Finished_log.moves.len() == made.0->Finished_log.moves.len()
            &&& forall|i: int|
                0 <= i < reported.0->Finished_log.moves.len() ==> {
                    &&& (#[trigger] reported.0->Finished_log.moves[i]).from
                        == made.0->Finished_log.moves[i].from
                    &&& reported.0->Finished_log.moves[i].category
                        == made.0->Finished_log.moves[i].category
                    &&& reported.0->Finished_log.moves[i].to == destination_of(
                        live,
                        made.0->Finished_log.moves[i].from,
                        0,
                    )
                }
        }),
{
    lemma_run_finishes(dry, disk, walk, steps);
    lemma_run_finishes(live, disk, walk, steps);
    lemma_dry_run_changes_nothing(dry, disk, walk, steps);
    lemma_dry_log_matches_real_log(dry, live, disk, walk, steps, steps);
}

/// Organize, then undo, with everything in order and no log from before:
/// the run finishes, the undo comes to its end with `Restored`, every file
/// stands where it stood, the log file is gone, and no category folder is
/// left empty.
pub proof fn lemma_round_trip_in_order(
    cfg: Settings,
    disk: Disk,
    walk: Seq<Seq<Seq<char>>>,
    steps: nat,
    undo_steps: nat,
)
    requires
        !cfg.dry_run,
        in_order(cfg, disk, walk),
        without_log(cfg, disk),
        steps >= whole_budget(disk, walk),
        undo_steps >= 2 * organize_run(
            cfg,
            OrganizeStateView::CheckingTarget,
            disk,
            walk,
            steps,
        ).0->Finished_log.moves.len() + 2 * default_table().len() + 2,
    ensures
        ({
            let organized = organize_run(cfg, OrganizeStateView::CheckingTarget, disk, walk, steps);
            let end = undo_run(cfg, UndoStateView::Loading, organized.1, undo_steps);
            &&& organized.0 is Finished
            &&& end.0 == (UndoStateView::Finished { outcome: UndoOutcome::Restored })
            &&& end.1.files == disk.files
            &&& end.1.logs == disk.logs
            &&& tidy_below(cfg, end.1, default_table().len())
        }),
{
    let organized = organize_run(cfg, OrganizeStateView::CheckingTarget, disk, walk, steps);
    lemma_run_finishes(cfg, disk, walk, steps);
    lemma_run_matches_log(cfg, disk, walk, steps);
    lemma_undo_comes_to_an_end(cfg, disk, organized.0->Finished_log, organized.1, undo_steps);
    lemma_round_trip(cfg, disk, walk, steps, undo_steps);
}

} // verus!
