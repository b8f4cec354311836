//! A directory-organizing file watcher core.
//!
//! The library plans how files found in a watched target directory are
//! relocated into per-extension subdirectories: it classifies a candidate
//! path by its file name and extension, computes the destination, and
//! drives the per-file handling protocol (ensure the bucket directory,
//! re-confirm the source, rename) as a verified state machine. The
//! filesystem and the OS notification mechanism stay outside; callers
//! perform the actions the library decides on and feed the results back.

pub mod model;
pub mod path_text;
pub mod watch;
