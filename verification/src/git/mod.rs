//! Git repositories as a source of vendored files.
pub mod cache;
pub mod parse;
pub mod target;
