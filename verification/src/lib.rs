//! Directional window navigation for a tiling compositor, plus small
//! status-bar helpers.
//!
//! The navigator takes a snapshot of the compositor's window tree, reduces it
//! to the fields navigation cares about, finds the active workspace, flattens
//! the workspace into a visually ordered list of windows, and computes the
//! next or previous window in that order together with the command string
//! that switches focus or swaps windows.

pub mod collect;
pub mod command;
pub mod geometry;
pub mod graph;
pub mod interval;
pub mod nav;
pub mod order;
pub mod select;
pub mod tree;
