//! Files fetched directly over HTTP(S).
pub mod parse;
pub mod target;
