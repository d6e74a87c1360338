//! Locates classes, methods, docstrings and export lists in Python source text.

pub mod chapter;
pub mod extractors;
pub mod helpers;
pub mod navigation;
pub mod text;
