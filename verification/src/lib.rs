use vstd::prelude::*;

pub mod cli;
pub mod diff;
pub mod dirs;
pub mod error;
pub mod git;
pub mod github;
pub mod globs;
pub mod graph;
pub mod hashing;
pub mod http;
pub mod javascript;
pub mod lock;
pub mod manifest;
pub mod map;
pub mod path;
pub mod paths;
pub mod refs;
pub mod review;
pub mod rust;
pub mod sort;
pub mod source;
pub mod state;
pub mod target;
pub mod text;
pub mod url_parts;
pub mod vendor;

verus! {

} // verus!
