//! Renders a filtered, depth-limited tree of a directory snapshot, and
//! optionally a dump of the visited files' texts and a heuristic report of
//! line kinds and declaration counts.
//!
//! The walk takes a [`walk::Node`] tree read from disk by the caller; the
//! entry filter and sorter decides at every level what is shown and in
//! which order, and the classifier and statistics fold in each shown file
//! whose text was read.
pub mod classify;
pub mod config;
pub mod dump;
pub mod entry;
pub mod order;
pub mod report;
pub mod stats;
pub mod text;
pub mod walk;
