//! Sorts the files of a directory into category folders by extension, keeps
//! a log of every move, and plans how to take the moves back.
//!
//! The library decides; it never touches the disk. A driver performs each
//! request and reports what happened.

pub mod categories;
pub mod error;
pub mod log;
pub mod model;
pub mod names;
pub mod organizer;
pub mod outside;
pub mod paths;
pub mod protocol;
pub mod undo;
