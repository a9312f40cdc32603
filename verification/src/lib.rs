//! Browsing, diffing and byte-layout formatting for MDD diagnostic databases.
pub mod assistant;
pub mod browse;
pub mod context;
pub mod diff;
pub mod prefs;
pub mod report;
pub mod sort;
pub mod text;
pub mod tree;
pub mod tree_sort;
pub mod uds;
