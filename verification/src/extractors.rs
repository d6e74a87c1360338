//! Extraction of a class, its methods and its docstring from source lines.

pub mod class;
pub mod docstring;
pub mod method;
pub mod parameter;
pub mod pyobjects;
