//! Comparison of two databases.
pub mod compare;
pub mod diff_tree;
pub mod export;
pub mod keyed_map;
pub mod snapshot;
