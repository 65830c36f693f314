//! An index of the `TODO:` comments in the files of a git repository.
//!
//! The index holds one row per file, with the annotations found in it and
//! the time of the scan. A file is read again only where it changed after
//! its row was written. Each annotation carries the name of whoever wrote
//! its line, as far as the repository's history tells.

pub mod clean;
pub mod config;
pub mod index;
pub mod paths;
pub mod report;
pub mod text;
pub mod time;
pub mod walk;
