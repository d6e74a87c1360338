//! The structural context tree of one Python source file.

pub mod soundness;
pub mod tree;
pub mod laws;
pub mod lines;
pub mod node;
pub mod processor;
pub mod scan;
pub mod types;
