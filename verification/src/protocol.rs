//! What passes between the library and its driver: the library asks for one
//! thing to be done, the driver does it and says what happened.

use vstd::prelude::*;
use crate::log::{MoveLog, MoveLogView};
use crate::paths::FilePath;

verus! {

/// What the driver is asked to do next.
#[derive(Debug)]
pub enum Request {
    /// Say whether `path` exists and whether it is a directory.
    Inspect { path: FilePath },
    /// Say what the clock reads: seconds since 1970 and nanoseconds within
    /// the second.
    ReadClock,
    /// Give the next entry below `root`, from depth 1 down to `max_depth`.
    NextEntry { root: FilePath, max_depth: usize },
    /// Create the directory `path` with every missing ancestor.
    CreateDir { path: FilePath },
    /// Say whether anything exists at `path`.
    Probe { path: FilePath },
    /// Rename `from` to `to`.
    Rename { from: FilePath, to: FilePath },
    /// Encode the log that the state holds and write it to `path`.
    WriteLog { path: FilePath },
    /// Read and decode the log at `path`.
    ReadLog { path: FilePath },
    /// Say whether `path` is a directory that exists and holds nothing.
    ProbeEmptyDir { path: FilePath },
    /// Remove the directory `path`.
    RemoveDir { path: FilePath },
    /// Remove the file `path`.
    RemoveFile { path: FilePath },
    /// Nothing: the run is over.
    Stop,
}

/// A request as contracts speak of it.
pub enum RequestView {
    Inspect { path: Seq<Seq<char>> },
    ReadClock,
    NextEntry { root: Seq<Seq<char>>, max_depth: usize },
    CreateDir { path: Seq<Seq<char>> },
    Probe { path: Seq<Seq<char>> },
    Rename { from: Seq<Seq<char>>, to: Seq<Seq<char>> },
    WriteLog { path: Seq<Seq<char>> },
    ReadLog { path: Seq<Seq<char>> },
    ProbeEmptyDir { path: Seq<Seq<char>> },
    RemoveDir { path: Seq<Seq<char>> },
    RemoveFile { path: Seq<Seq<char>> },
    Stop,
}

impl View for Request {
    type V = RequestView;

    open spec fn view(&self) -> RequestView {
        match *self {
            Request::Inspect { path } => RequestView::Inspect { path: path@ },
            Request::ReadClock => RequestView::ReadClock,
            Request::NextEntry { root, max_depth } => RequestView::NextEntry {
                root: root@,
                max_depth,
            },
            Request::CreateDir { path } => RequestView::CreateDir { path: path@ },
            Request::Probe { path } => RequestView::Probe { path: path@ },
            Request::Rename { from, to } => RequestView::Rename { from: from@, to: to@ },
            Request::WriteLog { path } => RequestView::WriteLog { path: path@ },
            Request::ReadLog { path } => RequestView::ReadLog { path: path@ },
            Request::ProbeEmptyDir { path } => RequestView::ProbeEmptyDir { path: path@ },
            Request::RemoveDir { path } => RequestView::RemoveDir { path: path@ },
            Request::RemoveFile { path } => RequestView::RemoveFile { path: path@ },
            Request::Stop => RequestView::Stop,
        }
    }
}

impl RequestView {
    /// Whether carrying the request out changes anything on disk.
    pub open spec fn changes_disk(self) -> bool {
        self is CreateDir || self is Rename || self is WriteLog || self is RemoveDir
            || self is RemoveFile
    }
}

impl Request {
    /// Whether carrying the request out changes anything on disk.
    pub fn changes_disk(&self) -> (yes: bool)
        ensures
            yes == self@.changes_disk(),
    {
        match self {
            Request::CreateDir { .. } => true,
            Request::Rename { .. } => true,
            Request::WriteLog { .. } => true,
            Request::RemoveDir { .. } => true,
            Request::RemoveFile { .. } => true,
            _ => false,
        }
    }
}

/// What the driver reports back.
#[derive(Debug)]
#[allow(inconsistent_fields)]
pub enum Event {
    /// The answer to `Inspect`.
    Target { exists: bool, is_dir: bool },
    /// The answer to `ReadClock`.
    Clock { seconds: i64, nanos: u32 },
    /// The answer to `NextEntry`: one more entry, and whether it is a regular file.
    Entry { path: FilePath, is_file: bool },
    /// The answer to `NextEntry` when the walk is over.
    WalkEnded,
    /// The answer to `Probe` and to `ProbeEmptyDir`.
    Found { yes: bool },
    /// The request was carried out.
    Done,
    /// The disk refused the request.
    IoFailed { source: std::io::Error },
    /// The log could not be encoded, or what was read could not be decoded.
    JsonFailed { source: serde_json::Error },
    /// The answer to `ReadLog` when there is no log file.
    LogMissing,
    /// The answer to `ReadLog`: the log that the file held.
    LogLoaded { log: MoveLog },
}

/// An event as contracts speak of it.
#[allow(inconsistent_fields)]
pub enum EventView {
    Target { exists: bool, is_dir: bool },
    Clock { seconds: i64, nanos: u32 },
    Entry { path: Seq<Seq<char>>, is_file: bool },
    WalkEnded,
    Found { yes: bool },
    Done,
    IoFailed { source: std::io::Error },
    JsonFailed { source: serde_json::Error },
    LogMissing,
    LogLoaded { log: MoveLogView },
}

impl View for Event {
    type V = EventView;

    open spec fn view(&self) -> EventView {
        match *self {
            Event::Target { exists, is_dir } => EventView::Target { exists, is_dir },
            Event::Clock { seconds, nanos } => EventView::Clock { seconds, nanos },
            Event::Entry { path, is_file } => EventView::Entry { path: path@, is_file },
            Event::WalkEnded => EventView::WalkEnded,
            Event::Found { yes } => EventView::Found { yes },
            Event::Done => EventView::Done,
            Event::IoFailed { source } => EventView::IoFailed { source },
            Event::JsonFailed { source } => EventView::JsonFailed { source },
            Event::LogMissing => EventView::LogMissing,
            Event::LogLoaded { log } => EventView::LogLoaded { log: log@ },
        }
    }
}

} // verus!
