//! What can end a run early.

use vstd::prelude::*;
use crate::paths::FilePath;

verus! {

/// Why a run stopped. Each kind carries the paths it is about and, where the
/// disk or the log's encoding failed, the cause that the driver reported.
#[derive(Debug)]
#[allow(inconsistent_fields)]
pub enum OrganizerError {
    /// The directory could not be listed.
    ReadDirError { path: FilePath, source: std::io::Error },
    /// A category folder could not be created.
    CreateDirError { path: FilePath, source: std::io::Error },
    /// A file could not be renamed.
    MoveFileError { from: FilePath, to: FilePath, source: std::io::Error },
    /// A file has no extension to sort it by.
    NoExtensionError { path: FilePath },
    /// The target is missing or is no directory.
    InvalidTargetDir { path: FilePath },
    /// The log at `path` could not be encoded or decoded.
    SerializationError { path: FilePath, source: serde_json::Error },
    /// The log file at `path` could not be written.
    LogWriteError { path: FilePath, source: std::io::Error },
    /// The log file at `path` could not be read.
    LogReadError { path: FilePath, source: std::io::Error },
}

/// An error as contracts speak of it.
#[allow(inconsistent_fields)]
pub enum ErrorView {
    ReadDirError { path: Seq<Seq<char>>, source: std::io::Error },
    CreateDirError { path: Seq<Seq<char>>, source: std::io::Error },
    MoveFileError { from: Seq<Seq<char>>, to: Seq<Seq<char>>, source: std::io::Error },
    NoExtensionError { path: Seq<Seq<char>> },
    InvalidTargetDir { path: Seq<Seq<char>> },
    SerializationError { path: Seq<Seq<char>>, source: serde_json::Error },
    LogWriteError { path: Seq<Seq<char>>, source: std::io::Error },
    LogReadError { path: Seq<Seq<char>>, source: std::io::Error },
}

impl View for OrganizerError {
    type V = ErrorView;

    open spec fn view(&self) -> ErrorView {
        match *self {
            OrganizerError::ReadDirError { path, source } => ErrorView::ReadDirError {
                path: path@,
                source,
            },
            OrganizerError::CreateDirError { path, source } => ErrorView::CreateDirError {
                path: path@,
                source,
            },
            OrganizerError::MoveFileError { from, to, source } => ErrorView::MoveFileError {
                from: from@,
                to: to@,
                source,
            },
            OrganizerError::NoExtensionError { path } => ErrorView::NoExtensionError { path: path@ },
            OrganizerError::InvalidTargetDir { path } => ErrorView::InvalidTargetDir { path: path@ },
            OrganizerError::SerializationError { path, source } => ErrorView::SerializationError {
                path: path@,
                source,
            },
            OrganizerError::LogWriteError { path, source } => ErrorView::LogWriteError {
                path: path@,
                source,
            },
            OrganizerError::LogReadError { path, source } => ErrorView::LogReadError {
                path: path@,
                source,
            },
        }
    }
}

} // verus!
