//! The `gh:owner/repo/path@version` source of single GitHub files.
use vstd::prelude::*;

use crate::error::{error_kind, VdmError};
use crate::git::parse::{spec_version_check_safe, spec_version_ref_ok, VdmGitSource};
use crate::github::target::{
    github_file_key, github_file_source_url, github_file_vendor_path, spec_github_file,
    spec_github_file_vendor_path, GitHubFileView,
};
use crate::manifest::target::{VdmManifestSourceVersion, VdmManifestTargetPath, VdmManifestTargetUrl};
use crate::path::{component_is_normal, component_is_normal_exec, path_all_normal, path_all_normal_exec};
use crate::refs::ref_name_is_valid;
use crate::target::VdmTarget;
use crate::text::{
    chars_of, concat2, find_char, find_char_exec, has_prefix, lemma_find_char_from_bounds, rfind_char,
    rfind_char_exec, slice_chars, starts_with, string_of,
};

verus! {

/// The source of single GitHub files, `gh:owner/repo/path@version`.
#[derive(Debug)]
pub struct VdmSourceGitHub;

/// `owner/repo/path` split at its first two `/`, as `splitn(3, '/')` does;
/// missing parts are empty.
pub open spec fn spec_split_owner_repo_path(s: Seq<char>) -> (Seq<char>, Seq<char>, Seq<char>) {
    match find_char(s, '/') {
        None => (s, Seq::empty(), Seq::empty()),
        Some(i) => {
            let r = s.skip(i + 1);
            match find_char(r, '/') {
                None => (s.take(i), r, Seq::empty()),
                Some(j) => (s.take(i), r.take(j), r.skip(j + 1)),
            }
        },
    }
}

/// The checks on `owner/repo/path` and `version`, and the target they make.
pub open spec fn spec_source_github_build(source: Seq<char>, version: Seq<char>) -> Result<GitHubFileView, VdmError> {
    let (owner, repo, path) = spec_split_owner_repo_path(source);
    if owner.len() == 0 {
        Err(VdmError::EmptyRepositoryOwner)
    } else if repo.len() == 0 {
        Err(VdmError::EmptyRepositoryName)
    } else if !(component_is_normal(owner) && component_is_normal(repo)) {
        Err(VdmError::UnsafeRepositoryComponent)
    } else if path.len() == 0 {
        Err(VdmError::EmptyRepositoryFilePath)
    } else if !path_all_normal(path) {
        Err(VdmError::UnsafeRepositoryPath)
    } else if !spec_version_ref_ok(version) {
        Err(VdmError::InvalidVersion)
    } else {
        Ok(spec_github_file(owner, repo, path, version))
    }
}

/// Building is free of the panic in `git2`.
pub open spec fn spec_source_github_build_safe(source: Seq<char>, version: Seq<char>) -> bool {
    let (owner, repo, path) = spec_split_owner_repo_path(source);
    component_is_normal(owner) && component_is_normal(repo) && path.len() > 0 && path_all_normal(path)
        ==> spec_version_check_safe(version)
}

/// What the source makes of an input: `Ok(None)` unless it starts with `gh:`.
pub open spec fn spec_source_github_parse(input: Seq<char>) -> Result<Option<GitHubFileView>, VdmError> {
    if !has_prefix(input, "gh:"@) {
        Ok(None)
    } else {
        let rest = input.skip("gh:"@.len() as int);
        match rfind_char(rest, '@') {
            None => Err(error_kind(VdmError::MissingGitHubVersion(arbitrary()))),
            Some(k) => {
                let version = rest.skip(k + 1);
                if version.len() == 0 {
                    Err(VdmError::EmptyGitHubVersion)
                } else {
                    match spec_source_github_build(rest.take(k), version) {
                        Ok(t) => Ok(Some(t)),
                        Err(e) => Err(e),
                    }
                }
            },
        }
    }
}

/// Parsing is free of the panic in `git2`.
pub open spec fn spec_source_github_parse_safe(input: Seq<char>) -> bool {
    has_prefix(input, "gh:"@) ==> {
        let rest = input.skip("gh:"@.len() as int);
        match rfind_char(rest, '@') {
            None => true,
            Some(k) => spec_source_github_build_safe(rest.take(k), rest.skip(k + 1)),
        }
    }
}

/// A single file of a GitHub repository at a version.
#[derive(Debug)]
pub struct VdmSourceGitHubTarget {
    key: VdmManifestTargetUrl,
    owner: String,
    repo: String,
    path: VdmManifestTargetPath,
    version: VdmManifestSourceVersion,
    source_url: String,
}

impl View for VdmSourceGitHubTarget {
    type V = GitHubFileView;

    closed spec fn view(&self) -> GitHubFileView {
        GitHubFileView {
            key: self.key@,
            owner: self.owner@,
            repo: self.repo@,
            path: self.path@,
            version: self.version@,
            source_url: self.source_url@,
        }
    }
}

proof fn lemma_rfind_bounds(s: Seq<char>, c: char, end: int)
    ensures
        crate::text::rfind_char_before(s, c, end) matches Some(k) ==> 0 <= k < end <= s.len(),
    decreases end,
{
    if 0 < end <= s.len() && s[end - 1] != c {
        lemma_rfind_bounds(s, c, end - 1);
    }
}

impl VdmSourceGitHubTarget {
    fn build(owner: String, repo: String, path: String, version: String) -> (r: Self)
        ensures
            r@ == spec_github_file(owner@, repo@, path@, version@),
    {
        let o = chars_of(owner.as_str());
        let n = chars_of(repo.as_str());
        let p = chars_of(path.as_str());
        let v = chars_of(version.as_str());
        let key = github_file_key(o.as_slice(), n.as_slice(), p.as_slice());
        let source_url = github_file_source_url(o.as_slice(), n.as_slice(), p.as_slice(), v.as_slice());
        Self {
            key: VdmManifestTargetUrl::from_chars(key.as_slice()),
            owner,
            repo,
            path: VdmManifestTargetPath::new(path.as_str()),
            version: VdmManifestSourceVersion::new(version.as_str()),
            source_url: string_of(source_url.as_slice()),
        }
    }

    pub fn repository_path(&self) -> (r: &str)
        ensures
            r@ == self@.path,
    {
        self.path.as_str()
    }

    /// The same repository at another path, which must stay inside it.
    pub fn with_path(&self, path: &str) -> (r: Result<Self, VdmError>)
        ensures
            match r {
                Ok(t) => path_all_normal(path@) && t@ == spec_github_file(self@.owner, self@.repo, path@, self@.version),
                Err(e) => !path_all_normal(path@) && (e matches VdmError::GitHubPathOutsideRepository(p) && p@ == path@),
            },
    {
        if !path_all_normal_exec(chars_of(path).as_slice()) {
            return Err(VdmError::GitHubPathOutsideRepository(path.to_owned()));
        }
        Ok(Self::build(self.owner.clone(), self.repo.clone(), path.to_owned(), self.version.as_str().to_owned()))
    }

    /// The same file at another version.
    pub fn with_version(&self, version: &str) -> (r: Self)
        ensures
            r@ == spec_github_file(self@.owner, self@.repo, self@.path, version@),
    {
        Self::build(self.owner.clone(), self.repo.clone(), self.path.as_str().to_owned(), version.to_owned())
    }
}

impl VdmTarget for VdmSourceGitHubTarget {
    open spec fn key_view(&self) -> Seq<char> {
        self@.key
    }

    open spec fn version_view(&self) -> Seq<char> {
        self@.version
    }

    open spec fn source_url_view(&self) -> Seq<char> {
        self@.source_url
    }

    open spec fn vendor_path_view(&self) -> Seq<char> {
        spec_github_file_vendor_path(self@)
    }

    fn key(&self) -> (r: &VdmManifestTargetUrl) {
        &self.key
    }

    fn version(&self) -> (r: &VdmManifestSourceVersion) {
        &self.version
    }

    fn source_url(&self) -> (r: &str) {
        self.source_url.as_str()
    }

    fn vendor_path(&self) -> (r: String) {
        let v = github_file_vendor_path(
            chars_of(self.owner.as_str()).as_slice(),
            chars_of(self.repo.as_str()).as_slice(),
            self.path.to_chars().as_slice(),
        );
        string_of(v.as_slice())
    }
}

impl VdmSourceGitHub {
    /// Splits `owner/repo/path` at its first two `/`.
    pub fn split_owner_repo_path(s: &[char]) -> (r: (Vec<char>, Vec<char>, Vec<char>))
        ensures
            spec_split_owner_repo_path(s@) == (r.0@, r.1@, r.2@),
    {
        let n = s.len();
        match find_char_exec(s, '/') {
            None => {
                let a = slice_chars(s, 0, n);
                assert(a@ =~= s@);
                (a, Vec::new(), Vec::new())
            },
            Some(i) => {
                proof {
                    lemma_find_char_from_bounds(s@, '/', 0);
                }
                let r = slice_chars(s, i + 1, n);
                assert(r@ =~= s@.skip(i + 1));
                let owner = slice_chars(s, 0, i);
                assert(owner@ =~= s@.take(i as int));
                match find_char_exec(r.as_slice(), '/') {
                    None => (owner, r, Vec::new()),
                    Some(j) => {
                        proof {
                            lemma_find_char_from_bounds(r@, '/', 0);
                        }
                        let repo = slice_chars(r.as_slice(), 0, j);
                        let path = slice_chars(r.as_slice(), j + 1, r.len());
                        assert(repo@ =~= r@.take(j as int));
                        assert(path@ =~= r@.skip(j + 1));
                        (owner, repo, path)
                    },
                }
            },
        }
    }

    /// Checks `owner/repo/path` and `version` and builds the target.
    pub fn build(source: &[char], version: &[char]) -> (r: Result<VdmSourceGitHubTarget, VdmError>)
        requires
            spec_source_github_build_safe(source@, version@),
        ensures
            match r {
                Ok(t) => spec_source_github_build(source@, version@) == Ok::<GitHubFileView, VdmError>(t@),
                Err(e) => spec_source_github_build(source@, version@) == Err::<GitHubFileView, VdmError>(e),
            },
    {
        let (owner, repo, path) = Self::split_owner_repo_path(source);
        if owner.len() == 0 {
            return Err(VdmError::EmptyRepositoryOwner);
        }
        if repo.len() == 0 {
            return Err(VdmError::EmptyRepositoryName);
        }
        if !(component_is_normal_exec(owner.as_slice()) && component_is_normal_exec(repo.as_slice())) {
            return Err(VdmError::UnsafeRepositoryComponent);
        }
        if path.len() == 0 {
            return Err(VdmError::EmptyRepositoryFilePath);
        }
        if !path_all_normal_exec(path.as_slice()) {
            return Err(VdmError::UnsafeRepositoryPath);
        }
        let valid_ref = if VdmGitSource::is_commit_sha(version) {
            true
        } else {
            let prefix = chars_of("refs/heads/");
            let name = concat2(prefix.as_slice(), version);
            assert(!name@.contains('\0')) by {
                if name@.contains('\0') {
                    let k = choose|k: int| 0 <= k < name@.len() && name@[k] == '\0';
                    if k >= prefix@.len() {
                        assert(version@[k - prefix@.len()] == '\0');
                    } else {
                        reveal_strlit("refs/heads/");
                        assert(prefix@[k] == '\0');
                    }
                }
            }
            ref_name_is_valid(string_of(name.as_slice()).as_str())
        };
        if !valid_ref {
            return Err(VdmError::InvalidVersion);
        }
        Ok(VdmSourceGitHubTarget::build(
            string_of(owner.as_slice()),
            string_of(repo.as_slice()),
            string_of(path.as_slice()),
            string_of(version),
        ))
    }

    /// Reads `gh:owner/repo/path@version`: `Ok(None)` unless the input starts with `gh:`.
    pub fn parse(&self, input: &str) -> (r: Result<Option<VdmSourceGitHubTarget>, VdmError>)
        requires
            spec_source_github_parse_safe(input@),
        ensures
            match r {
                Ok(Some(t)) => spec_source_github_parse(input@) == Ok::<Option<GitHubFileView>, VdmError>(Some(t@)),
                Ok(None) => spec_source_github_parse(input@) == Ok::<Option<GitHubFileView>, VdmError>(None),
                Err(e) => spec_source_github_parse(input@) == Err::<Option<GitHubFileView>, VdmError>(error_kind(e)),
            },
    {
        let chars = chars_of(input);
        let p = chars_of("gh:");
        if !starts_with(chars.as_slice(), p.as_slice()) {
            return Ok(None);
        }
        let rest = slice_chars(chars.as_slice(), p.len(), chars.len());
        assert(rest@ =~= input@.skip("gh:"@.len() as int));
        proof {
            lemma_rfind_bounds(rest@, '@', rest@.len() as int);
        }
        let k = match rfind_char_exec(rest.as_slice(), '@') {
            None => return Err(VdmError::MissingGitHubVersion(string_of(rest.as_slice()))),
            Some(k) => k,
        };
        let source = slice_chars(rest.as_slice(), 0, k);
        let version = slice_chars(rest.as_slice(), k + 1, rest.len());
        assert(source@ =~= rest@.take(k as int));
        assert(version@ =~= rest@.skip(k + 1));
        if version.len() == 0 {
            return Err(VdmError::EmptyGitHubVersion);
        }
        match Self::build(source.as_slice(), version.as_slice()) {
            Ok(t) => Ok(Some(t)),
            Err(e) => Err(e),
        }
    }
}

} // verus!
