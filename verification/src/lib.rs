//! Differences between two sorted, content-addressed entry lists, with
//! rename and copy detection on top.
//!
//! [`facade::index`] compares two indices and yields one change per path
//! that differs, in path order. [`tracker::Tracker`] then matches additions
//! with the deletions, modifications and unmodified entries they were
//! renamed or copied from, first by identical content and then by
//! similarity, and [`emit::emit`] produces the final stream, in which a
//! rewrite stands where its destination stood. Similarities are whole
//! numbers of hundredths of a percent.

pub mod change;
pub mod copies;
pub mod describe;
pub mod diff;
pub mod diff_laws;
pub mod emit;
pub mod entry;
pub mod facade;
pub mod fuzzy;
pub mod path;
pub mod rewrites;
pub mod similarity;
pub mod tracker;
pub mod tracker_laws;
pub mod walk;
