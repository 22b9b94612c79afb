//! Glob patterns, compiled by `globset` with `/` as a literal separator and
//! backslash escapes turned off.
use vstd::prelude::*;

use globset::{GlobBuilder, GlobSetBuilder};

verus! {

/// `globset` accepts `pattern` as a glob.
pub uninterp spec fn glob_builds(pattern: Seq<char>) -> bool;

/// `globset` compiles the set that holds the one glob `pattern` (its regex
/// stays within the crate's size limit).
pub uninterp spec fn glob_set_builds(pattern: Seq<char>) -> bool;

/// The set that holds the one glob `pattern` matches `path`.
pub uninterp spec fn glob_matches(pattern: Seq<char>, path: Seq<char>) -> bool;

/// A glob that can be used for matching: it parses, and its matcher compiles.
pub open spec fn glob_usable(pattern: Seq<char>) -> bool {
    glob_builds(pattern) && glob_set_builds(pattern)
}

/// Calls `GlobBuilder::build` with `literal_separator(true)` and
/// `backslash_escape(false)`; the result is whether it succeeds.
#[verifier::external_body]
fn glob_is_valid(pattern: &str) -> (r: bool)
    ensures
        r == glob_builds(pattern@),
{
    GlobBuilder::new(pattern).literal_separator(true).backslash_escape(false).build().is_ok()
}

/// Calls `GlobSetBuilder::build` on a builder holding the one glob built from
/// `pattern` with the options above; the result is whether it succeeds.
/// That build reports a regex over the size limit as an error.
#[verifier::external_body]
fn glob_set_is_valid(pattern: &str) -> (r: bool)
    requires
        glob_builds(pattern@),
    ensures
        r == glob_set_builds(pattern@),
{
    match GlobBuilder::new(pattern).literal_separator(true).backslash_escape(false).build() {
        Ok(glob) => GlobSetBuilder::new().add(glob).build().is_ok(),
        Err(_) => false,
    }
}

/// Whether `pattern` parses as a glob and its matcher compiles.
pub(crate) fn glob_is_usable(pattern: &str) -> (r: bool)
    ensures
        r == glob_usable(pattern@),
{
    glob_is_valid(pattern) && glob_set_is_valid(pattern)
}

/// Calls `GlobSet::is_match` on the set built as in `glob_set_is_valid`; the
/// result is the named match of `pattern` against `path`.
#[verifier::external_body]
pub(crate) fn glob_is_match(pattern: &str, path: &str) -> (r: bool)
    requires
        glob_usable(pattern@),
    ensures
        r == glob_matches(pattern@, path@),
{
    match GlobBuilder::new(pattern).literal_separator(true).backslash_escape(false).build() {
        Ok(glob) => match GlobSetBuilder::new().add(glob).build() {
            Ok(set) => set.is_match(path),
            Err(_) => false,
        },
        Err(_) => false,
    }
}

} // verus!
