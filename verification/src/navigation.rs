//! Finding classes in the lines or in the tree of a file.

pub mod search;
pub mod traversal;
