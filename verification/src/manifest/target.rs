//! The string types that name targets in the manifest and the lock.
use vstd::prelude::*;

use crate::git::parse::{spec_split_repository_path, VdmGitSource};
use crate::path::{normalize_repository_path, spec_normalize_repository_path};
use crate::text::{chars_of, contains_char, has_prefix, push_all, slice_chars, starts_with, string_of, trim_end_char, trim_end_char_exec};

verus! {

/// A manifest key naming one target (or, for a grouped source, a base).
#[derive(Debug, Eq, PartialOrd, Ord, Hash)]
pub struct VdmManifestTargetUrl(String);

/// A path inside a source, as written in the manifest.
#[derive(Debug, Eq, PartialOrd, Ord, Hash)]
pub struct VdmManifestTargetPath(String);

/// Version of the target, e.g., "main", "v2" or "cc99017271f65dc5e223344c6963df8c3fc429b8".
#[derive(Debug, Eq, PartialOrd, Ord, Hash)]
pub struct VdmManifestSourceVersion(String);

impl View for VdmManifestTargetUrl {
    type V = Seq<char>;

    closed spec fn view(&self) -> Seq<char> {
        self.0@
    }
}

impl View for VdmManifestTargetPath {
    type V = Seq<char>;

    closed spec fn view(&self) -> Seq<char> {
        self.0@
    }
}

impl View for VdmManifestSourceVersion {
    type V = Seq<char>;

    closed spec fn view(&self) -> Seq<char> {
        self.0@
    }
}

/// A listed path in its canonical form, when it has one; as written otherwise.
pub open spec fn spec_listed_path(path: Seq<char>) -> Seq<char> {
    match spec_normalize_repository_path(path) {
        Ok(p) => p,
        Err(_) => path,
    }
}

/// The key of the file `path` listed under the grouped base `base`: a `gh:`
/// or `git:` base without a path gets `:path`, one with a path gets `/path`;
/// any other base gets `/path` after its trailing `/` are removed.  The path
/// is taken in its canonical form.
pub open spec fn spec_join_target(base: Seq<char>, path: Seq<char>) -> Seq<char> {
    spec_join_raw(base, spec_listed_path(path))
}

/// [`spec_join_target`] with the path as given.
pub open spec fn spec_join_raw(base: Seq<char>, path: Seq<char>) -> Seq<char> {
    if has_prefix(base, "gh:"@) {
        if base.skip("gh:"@.len() as int).contains(':') {
            base + seq!['/'] + path
        } else {
            base + seq![':'] + path
        }
    } else if has_prefix(base, "git:"@) {
        if spec_split_repository_path(base.skip("git:"@.len() as int)) is Some {
            base + seq!['/'] + path
        } else {
            base + seq![':'] + path
        }
    } else {
        trim_end_char(base, '/') + seq!['/'] + path
    }
}

impl VdmManifestTargetUrl {
    /// The key of the file `path` listed under this grouped base.
    pub fn join(&self, path: &VdmManifestTargetPath) -> (r: VdmManifestTargetUrl)
        ensures
            r@ == spec_join_target(self@, path@),
    {
        let base = self.to_chars();
        let raw = path.to_chars();
        let p = match normalize_repository_path(raw.as_slice()) {
            Ok(p) => p,
            Err(_) => raw,
        };
        let gh = chars_of("gh:");
        let git = chars_of("git:");
        let mut r = if starts_with(base.as_slice(), gh.as_slice()) {
            let rest = slice_chars(base.as_slice(), gh.len(), base.len());
            assert(rest@ =~= base@.skip("gh:"@.len() as int));
            let mut r = base.clone();
            if contains_char(rest.as_slice(), ':') {
                r.push('/');
            } else {
                r.push(':');
            }
            r
        } else if starts_with(base.as_slice(), git.as_slice()) {
            let rest = slice_chars(base.as_slice(), git.len(), base.len());
            assert(rest@ =~= base@.skip("git:"@.len() as int));
            let mut r = base.clone();
            if VdmGitSource::split_repository_path(rest.as_slice()).is_some() {
                r.push('/');
            } else {
                r.push(':');
            }
            r
        } else {
            let mut r = trim_end_char_exec(base.as_slice(), '/');
            r.push('/');
            r
        };
        push_all(&mut r, p.as_slice());
        Self::from_chars(r.as_slice())
    }

    pub fn new(url: &str) -> (r: Self)
        ensures
            r@ == url@,
    {
        Self(url.to_owned())
    }

    pub fn from_chars(url: &[char]) -> (r: Self)
        ensures
            r@ == url@,
    {
        Self(string_of(url))
    }

    pub fn as_str(&self) -> (r: &str)
        ensures
            r@ == self@,
    {
        self.0.as_str()
    }

    pub fn to_chars(&self) -> (r: Vec<char>)
        ensures
            r@ == self@,
    {
        chars_of(self.0.as_str())
    }
}

impl VdmManifestTargetPath {
    pub fn new(path: &str) -> (r: Self)
        ensures
            r@ == path@,
    {
        Self(path.to_owned())
    }

    pub fn from_chars(path: &[char]) -> (r: Self)
        ensures
            r@ == path@,
    {
        Self(string_of(path))
    }

    pub fn as_str(&self) -> (r: &str)
        ensures
            r@ == self@,
    {
        self.0.as_str()
    }

    pub fn to_chars(&self) -> (r: Vec<char>)
        ensures
            r@ == self@,
    {
        chars_of(self.0.as_str())
    }
}

impl VdmManifestSourceVersion {
    pub fn new(version: &str) -> (r: Self)
        ensures
            r@ == version@,
    {
        Self(version.to_owned())
    }

    pub fn from_chars(version: &[char]) -> (r: Self)
        ensures
            r@ == version@,
    {
        Self(string_of(version))
    }

    pub fn as_str(&self) -> (r: &str)
        ensures
            r@ == self@,
    {
        self.0.as_str()
    }

    pub fn to_chars(&self) -> (r: Vec<char>)
        ensures
            r@ == self@,
    {
        chars_of(self.0.as_str())
    }
}

impl Clone for VdmManifestTargetUrl {
    fn clone(&self) -> (r: Self)
        ensures
            r@ == self@,
    {
        Self(self.0.clone())
    }
}

impl Clone for VdmManifestTargetPath {
    fn clone(&self) -> (r: Self)
        ensures
            r@ == self@,
    {
        Self(self.0.clone())
    }
}

impl Clone for VdmManifestSourceVersion {
    fn clone(&self) -> (r: Self)
        ensures
            r@ == self@,
    {
        Self(self.0.clone())
    }
}

impl PartialEq for VdmManifestTargetUrl {
    fn eq(&self, other: &Self) -> (r: bool) {
        self.0 == other.0
    }
}

impl vstd::std_specs::cmp::PartialEqSpecImpl for VdmManifestTargetUrl {
    open spec fn obeys_eq_spec() -> bool {
        true
    }

    open spec fn eq_spec(&self, other: &Self) -> bool {
        self@ == other@
    }
}

impl PartialEq for VdmManifestTargetPath {
    fn eq(&self, other: &Self) -> (r: bool) {
        self.0 == other.0
    }
}

impl vstd::std_specs::cmp::PartialEqSpecImpl for VdmManifestTargetPath {
    open spec fn obeys_eq_spec() -> bool {
        true
    }

    open spec fn eq_spec(&self, other: &Self) -> bool {
        self@ == other@
    }
}

impl PartialEq for VdmManifestSourceVersion {
    fn eq(&self, other: &Self) -> (r: bool) {
        self.0 == other.0
    }
}

impl vstd::std_specs::cmp::PartialEqSpecImpl for VdmManifestSourceVersion {
    open spec fn obeys_eq_spec() -> bool {
        true
    }

    open spec fn eq_spec(&self, other: &Self) -> bool {
        self@ == other@
    }
}

} // verus!
