//! Sources of vendored files, and the targets they read from text.
pub mod file;

pub mod github;
pub mod input;
