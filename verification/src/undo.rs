//! Taking a run back: the moves of the log in reverse, then the category
//! folders that are left empty, then the log itself.

use vstd::prelude::*;
use crate::categories::default_table;
use crate::error::{ErrorView, OrganizerError};
use crate::log::{MoveLog, MoveLogView};
use crate::organizer::{folder_of, log_path_of, FileOrganizer, Settings};
use crate::protocol::{Event, EventView, Request, RequestView};

verus! {

/// How an undo ended.
#[derive(Debug, Clone, Copy, PartialEq, Eq, Structural)]
pub enum UndoOutcome {
    /// There was no log, so there was nothing to undo.
    NothingToUndo,
    /// The moves of the log were taken back.
    Restored,
}

/// How far an undo has come. Each state but the last two waits for the answer
/// to the one request that `undo_request` gives for it.
#[derive(Debug)]
pub enum UndoState {
    /// Waiting for the log to be read.
    Loading,
    /// Waiting to hear whether the file of move `remaining - 1` still stands
    /// where the run put it. The moves from `remaining` on are dealt with.
    Probing { log: MoveLog, remaining: usize },
    /// Waiting for the file of move `remaining - 1` to be renamed back.
    Restoring { log: MoveLog, remaining: usize },
    /// Waiting to hear whether the folder of category `index` is there and empty.
    Inspecting { index: usize },
    /// Waiting for the folder of category `index` to be removed.
    RemovingDir { index: usize },
    /// Waiting for the log file to be removed.
    RemovingLog,
    /// The undo is over.
    Finished { outcome: UndoOutcome },
    /// The undo was given up. What was restored before stays restored, and
    /// the moves not yet reached stay as they are.
    Failed { error: OrganizerError },
}

/// A state as contracts speak of it.
pub enum UndoStateView {
    Loading,
    Probing { log: MoveLogView, remaining: nat },
    Restoring { log: MoveLogView, remaining: nat },
    Inspecting { index: nat },
    RemovingDir { index: nat },
    RemovingLog,
    Finished { outcome: UndoOutcome },
    Failed { error: ErrorView },
}

impl View for UndoState {
    type V = UndoStateView;

    open spec fn view(&self) -> UndoStateView {
        match *self {
            UndoState::Loading => UndoStateView::Loading,
            UndoState::Probing { log, remaining } => UndoStateView::Probing {
                log: log@,
                remaining: remaining as nat,
            },
            UndoState::Restoring { log, remaining } => UndoStateView::Restoring {
                log: log@,
                remaining: remaining as nat,
            },
            UndoState::Inspecting { index } => UndoStateView::Inspecting { index: index as nat },
            UndoState::RemovingDir { index } => UndoStateView::RemovingDir { index: index as nat },
            UndoState::RemovingLog => UndoStateView::RemovingLog,
            UndoState::Finished { outcome } => UndoStateView::Finished { outcome },
            UndoState::Failed { error } => UndoStateView::Failed { error: error@ },
        }
    }
}

impl UndoStateView {
    /// Whether the undo is over.
    pub open spec fn is_over(self) -> bool {
        self is Finished || self is Failed
    }
}

/// The state that takes up the moves below `remaining`, last first; with none
/// left, the cleanup begins.
pub open spec fn restore_from(log: MoveLogView, remaining: nat) -> UndoStateView {
    if remaining == 0 {
        cleanup_from(0)
    } else {
        UndoStateView::Probing { log, remaining }
    }
}

/// The state that takes up the category folders from `index` on; past the
/// last one, the log file is removed.
pub open spec fn cleanup_from(index: nat) -> UndoStateView {
    if index < default_table().len() {
        UndoStateView::Inspecting { index }
    } else {
        UndoStateView::RemovingLog
    }
}

/// Whether `remaining` names a move of the log: the move `remaining - 1`.
pub open spec fn names_move(log: MoveLogView, remaining: nat) -> bool {
    0 < remaining <= log.moves.len()
}

/// The state after `event` came in state `state`. An event that a state does
/// not wait for leaves it as it is, and so does any event in a state that
/// names no move of its log.
pub open spec fn undo_next(cfg: Settings, state: UndoStateView, event: EventView) -> UndoStateView {
    match state {
        UndoStateView::Loading => match event {
            EventView::LogMissing => UndoStateView::Finished { outcome: UndoOutcome::NothingToUndo },
            EventView::LogLoaded { log } => restore_from(log, log.moves.len()),
            EventView::IoFailed { source } => UndoStateView::Failed {
                error: ErrorView::LogReadError { path: log_path_of(cfg), source },
            },
            EventView::JsonFailed { source } => UndoStateView::Failed {
                error: ErrorView::SerializationError { path: log_path_of(cfg), source },
            },
            _ => state,
        },
        UndoStateView::Probing { log, remaining } => match event {
            EventView::Found { yes } => if !names_move(log, remaining) {
                state
            } else if yes {
                UndoStateView::Restoring { log, remaining }
            } else {
                restore_from(log, (remaining - 1) as nat)
            },
            _ => state,
        },
        UndoStateView::Restoring { log, remaining } => if !names_move(log, remaining) {
            state
        } else {
            match event {
                EventView::Done => restore_from(log, (remaining - 1) as nat),
                EventView::IoFailed { source } => UndoStateView::Failed {
                    error: ErrorView::MoveFileError {
                        from: log.moves[remaining - 1].to,
                        to: log.moves[remaining - 1].from,
                        source,
                    },
                },
                _ => state,
            }
        },
        UndoStateView::Inspecting { index } => match event {
            EventView::Found { yes } => if yes {
                UndoStateView::RemovingDir { index }
            } else {
                cleanup_from(index + 1)
            },
            _ => state,
        },
        UndoStateView::RemovingDir { index } => match event {
            EventView::Done => cleanup_from(index + 1),
            EventView::IoFailed { .. } => cleanup_from(index + 1),
            _ => state,
        },
        UndoStateView::RemovingLog => match event {
            EventView::Done => UndoStateView::Finished { outcome: UndoOutcome::Restored },
            EventView::IoFailed { .. } => UndoStateView::Finished { outcome: UndoOutcome::Restored },
            _ => state,
        },
        _ => state,
    }
}

/// What a state asks of the driver. A state that names no move of its log, or
/// no category of the table, asks for nothing.
pub open spec fn undo_request(cfg: Settings, state: UndoStateView) -> RequestView {
    match state {
        UndoStateView::Loading => RequestView::ReadLog { path: log_path_of(cfg) },
        UndoStateView::Probing { log, remaining } => if names_move(log, remaining) {
            RequestView::Probe { path: log.moves[remaining - 1].to }
        } else {
            RequestView::Stop
        },
        UndoStateView::Restoring { log, remaining } => if names_move(log, remaining) {
            RequestView::Rename {
                from: log.moves[remaining - 1].to,
                to: log.moves[remaining - 1].from,
            }
        } else {
            RequestView::Stop
        },
        UndoStateView::Inspecting { index } => if index < default_table().len() {
            RequestView::ProbeEmptyDir { path: folder_of(cfg, index) }
        } else {
            RequestView::Stop
        },
        UndoStateView::RemovingDir { index } => if index < default_table().len() {
            RequestView::RemoveDir { path: folder_of(cfg, index) }
        } else {
            RequestView::Stop
        },
        UndoStateView::RemovingLog => RequestView::RemoveFile {
            path: log_path_of(cfg),
        },
        _ => RequestView::Stop,
    }
}

/// The state that takes up the moves below `remaining`.
fn resume_restore(log: MoveLog, remaining: usize) -> (next: UndoState)
    ensures
        next@ == restore_from(log@, remaining as nat),
{
    if remaining == 0 {
        UndoState::Inspecting { index: 0 }
    } else {
        UndoState::Probing { log, remaining }
    }
}


impl FileOrganizer {
    /// The state that takes up the category folders behind `index`.
    fn resume_cleanup_after(&self, index: usize) -> (next: UndoState)
        ensures
            next@ == cleanup_from(index as nat + 1),
    {
        let count = self.category_count();
        if index < count && index + 1 < count {
            UndoState::Inspecting { index: index + 1 }
        } else {
            UndoState::RemovingLog
        }
    }

    /// What the driver is to do in `state`.
    pub fn undo_request(&self, state: &UndoState) -> (request: Request)
        ensures
            request@ == undo_request(self@, state@),
    {
        match state {
            UndoState::Loading => Request::ReadLog { path: self.log_path() },
            UndoState::Probing { log, remaining } => {
                if 0 < *remaining && *remaining <= log.moves.len() {
                    Request::Probe { path: log.moves[*remaining - 1].to.clone() }
                } else {
                    Request::Stop
                }
            },
            UndoState::Restoring { log, remaining } => {
                if 0 < *remaining && *remaining <= log.moves.len() {
                    Request::Rename {
                        from: log.moves[*remaining - 1].to.clone(),
                        to: log.moves[*remaining - 1].from.clone(),
                    }
                } else {
                    Request::Stop
                }
            },
            UndoState::Inspecting { index } => match self.category_folder(*index) {
                Some(path) => Request::ProbeEmptyDir { path },
                None => Request::Stop,
            },
            UndoState::RemovingDir { index } => match self.category_folder(*index) {
                Some(path) => Request::RemoveDir { path },
                None => Request::Stop,
            },
            UndoState::RemovingLog => Request::RemoveFile { path: self.log_path() },
            _ => Request::Stop,
        }
    }

    /// One step of an undo: takes the answer to the state's request and gives
    /// the state that follows.
    ///
    /// An undo starts in `Loading`. Without a log file it ends at once with
    /// `NothingToUndo`; a log that cannot be read or decoded ends it with
    /// `LogReadError` or `SerializationError`. Otherwise the moves of the log are taken up last
    /// first: a file that still stands where the run put it is renamed back,
    /// one that is gone is passed over, and a rename that fails ends the undo
    /// with `MoveFileError`. Then each category folder that is there and empty
    /// is removed, and the log file is removed; a failure of either removal is
    /// passed over.
    pub fn undo_last_organization(&self, state: UndoState, event: Event) -> (next: UndoState)
        ensures
            next@ == undo_next(self@, state@, event@),
    {
        match state {
            UndoState::Loading => match event {
                Event::LogMissing => UndoState::Finished { outcome: UndoOutcome::NothingToUndo },
                Event::LogLoaded { log } => {
                    let remaining = log.moves.len();
                    resume_restore(log, remaining)
                },
                Event::IoFailed { source } => UndoState::Failed {
                    error: OrganizerError::LogReadError { path: self.log_path(), source },
                },
                Event::JsonFailed { source } => UndoState::Failed {
                    error: OrganizerError::SerializationError { path: self.log_path(), source },
                },
                _ => UndoState::Loading,
            },
            UndoState::Probing { log, remaining } => match event {
                Event::Found { yes } => {
                    if remaining == 0 || remaining > log.moves.len() {
                        UndoState::Probing { log, remaining }
                    } else if yes {
                        UndoState::Restoring { log, remaining }
                    } else {
                        resume_restore(log, remaining - 1)
                    }
                },
                _ => UndoState::Probing { log, remaining },
            },
            UndoState::Restoring { log, remaining } => {
                if remaining == 0 || remaining > log.moves.len() {
                    UndoState::Restoring { log, remaining }
                } else {
                    match event {
                        Event::Done => resume_restore(log, remaining - 1),
                        Event::IoFailed { source } => {
                            let entry = &log.moves[remaining - 1];
                            UndoState::Failed {
                                error: OrganizerError::MoveFileError {
                                    from: entry.to.clone(),
                                    to: entry.from.clone(),
                                    source,
                                },
                            }
                        },
                        _ => UndoState::Restoring { log, remaining },
                    }
                }
            },
            UndoState::Inspecting { index } => match event {
                Event::Found { yes } => {
                    if yes {
                        UndoState::RemovingDir { index }
                    } else {
                        self.resume_cleanup_after(index)
                    }
                },
                _ => UndoState::Inspecting { index },
            },
            UndoState::RemovingDir { index } => match event {
                Event::Done => self.resume_cleanup_after(index),
                Event::IoFailed { .. } => self.resume_cleanup_after(index),
                _ => UndoState::RemovingDir { index },
            },
            UndoState::RemovingLog => match event {
                Event::Done => UndoState::Finished { outcome: UndoOutcome::Restored },
                Event::IoFailed { .. } => UndoState::Finished { outcome: UndoOutcome::Restored },
                _ => UndoState::RemovingLog,
            },
            UndoState::Finished { outcome } => UndoState::Finished { outcome },
            UndoState::Failed { error } => UndoState::Failed { error },
        }
    }
}

} // verus!
