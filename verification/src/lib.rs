//! Verified core of an archive manager: the decisions and bookkeeping behind
//! compressing files into a zip archive, extracting one, listing a directory
//! and driving the user interface.

pub mod text;
pub mod progress;
pub mod ordering;
pub mod browser;
pub mod compression;
pub mod extraction;
pub mod archive;
pub mod paths;
pub mod ui;
