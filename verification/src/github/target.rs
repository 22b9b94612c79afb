//! Files of a GitHub repository, named `gh:owner/repo/path`.
use vstd::prelude::*;

use crate::error::VdmError;
use crate::git::target::spec_github_source_url;
use crate::globs::{glob_is_usable, glob_usable};
use crate::manifest::target::{VdmManifestSourceVersion, VdmManifestTargetPath, VdmManifestTargetUrl};
use crate::path::{path_all_normal, path_all_normal_exec, path_join, path_join_exec};
use crate::target::VdmTarget;
use crate::text::{chars_of, has_glob_char, has_glob_char_exec, push_all, string_of};

verus! {

/// The mathematical form of a GitHub file target.
pub struct GitHubFileView {
    pub key: Seq<char>,
    pub owner: Seq<char>,
    pub repo: Seq<char>,
    pub path: Seq<char>,
    pub version: Seq<char>,
    pub source_url: Seq<char>,
}

/// The key `gh:owner/repo/path`.
pub open spec fn spec_github_file_key(owner: Seq<char>, repo: Seq<char>, path: Seq<char>) -> Seq<char> {
    "gh:"@ + owner + seq!['/'] + repo + seq!['/'] + path
}

/// The GitHub file target for `owner/repo/path` at `version`.
pub open spec fn spec_github_file(owner: Seq<char>, repo: Seq<char>, path: Seq<char>, version: Seq<char>) -> GitHubFileView {
    GitHubFileView {
        key: spec_github_file_key(owner, repo, path),
        owner,
        repo,
        path,
        version,
        source_url: spec_github_source_url(owner, repo, path, version),
    }
}

/// Where a GitHub file is written, relative to `vendor/`: `@owner/repo/path`.
pub open spec fn spec_github_file_vendor_path(t: GitHubFileView) -> Seq<char> {
    path_join(path_join(seq!['@'] + t.owner, t.repo), t.path)
}

/// Builds the key of a GitHub file target.
pub fn github_file_key(owner: &[char], repo: &[char], path: &[char]) -> (r: Vec<char>)
    ensures
        r@ == spec_github_file_key(owner@, repo@, path@),
{
    let mut r = chars_of("gh:");
    push_all(&mut r, owner);
    r.push('/');
    push_all(&mut r, repo);
    r.push('/');
    push_all(&mut r, path);
    assert(r@ =~= spec_github_file_key(owner@, repo@, path@));
    r
}

/// Builds the browse URL of a GitHub file target.
pub fn github_file_source_url(owner: &[char], repo: &[char], path: &[char], version: &[char]) -> (r: Vec<char>)
    ensures
        r@ == spec_github_source_url(owner@, repo@, path@, version@),
{
    let mut r = chars_of("https://github.com/");
    push_all(&mut r, owner);
    r.push('/');
    push_all(&mut r, repo);
    push_all(&mut r, chars_of("/blob/").as_slice());
    push_all(&mut r, version);
    r.push('/');
    push_all(&mut r, path);
    assert(r@ =~= spec_github_source_url(owner@, repo@, path@, version@));
    r
}

/// Builds the vendor path `@owner/repo/path`.
pub fn github_file_vendor_path(owner: &[char], repo: &[char], path: &[char]) -> (r: Vec<char>)
    ensures
        r@ == path_join(path_join(seq!['@'] + owner@, repo@), path@),
{
    let mut first = vec!['@'];
    push_all(&mut first, owner);
    assert(first@ =~= seq!['@'] + owner@);
    let second = path_join_exec(first.as_slice(), repo);
    path_join_exec(second.as_slice(), path)
}

/// A file (or glob) of a GitHub repository at a version.
#[derive(Debug)]
pub struct VdmGitHubTarget {
    key: VdmManifestTargetUrl,
    owner: String,
    repo: String,
    path: VdmManifestTargetPath,
    version: VdmManifestSourceVersion,
    source_url: String,
}

impl View for VdmGitHubTarget {
    type V = GitHubFileView;

    closed spec fn view(&self) -> GitHubFileView {
        GitHubFileView {
            key: self.key@,
            owner: self.owner@,
            repo: self.repo@,
            path: self.path@,
            version: self.version@,
            source_url: self.source_url@,
        }
    }
}

impl VdmGitHubTarget {
    /// The file `path` of `owner/repo` at `version`.
    pub fn new(owner: String, repo: String, path: VdmManifestTargetPath, version: VdmManifestSourceVersion) -> (r: Self)
        ensures
            r@ == spec_github_file(owner@, repo@, path@, version@),
    {
        let o = chars_of(owner.as_str());
        let n = chars_of(repo.as_str());
        let p = path.to_chars();
        let v = version.to_chars();
        let key = github_file_key(o.as_slice(), n.as_slice(), p.as_slice());
        let source_url = github_file_source_url(o.as_slice(), n.as_slice(), p.as_slice(), v.as_slice());
        Self {
            key: VdmManifestTargetUrl::from_chars(key.as_slice()),
            owner,
            repo,
            path,
            version,
            source_url: string_of(source_url.as_slice()),
        }
    }

    pub fn owner(&self) -> (r: &str)
        ensures
            r@ == self@.owner,
    {
        self.owner.as_str()
    }

    pub fn repo(&self) -> (r: &str)
        ensures
            r@ == self@.repo,
    {
        self.repo.as_str()
    }

    pub fn path(&self) -> (r: &str)
        ensures
            r@ == self@.path,
    {
        self.path.as_str()
    }

    pub fn repository_path(&self) -> (r: &str)
        ensures
            r@ == self@.path,
    {
        self.path.as_str()
    }

    /// The glob pattern of the target, when its path is a glob that `globset` accepts and compiles.
    pub fn glob(&self) -> (r: Result<Option<String>, VdmError>)
        ensures
            match r {
                Ok(Some(p)) => has_glob_char(self@.path) && glob_usable(self@.path) && p@ == self@.path,
                Ok(None) => !has_glob_char(self@.path),
                Err(e) => has_glob_char(self@.path) && !glob_usable(self@.path) && (e matches VdmError::InvalidGitHubGlob(p) && p@ == self@.path),
            },
    {
        if !has_glob_char_exec(self.path.to_chars().as_slice()) {
            return Ok(None);
        }
        if glob_is_usable(self.path.as_str()) {
            Ok(Some(self.path.as_str().to_owned()))
        } else {
            Err(VdmError::InvalidGitHubGlob(self.path.as_str().to_owned()))
        }
    }

    /// The same repository at another path, which must stay inside it.
    pub fn with_path(&self, path: &str) -> (r: Result<Self, VdmError>)
        ensures
            match r {
                Ok(t) => path_all_normal(path@) && t@ == spec_github_file(self@.owner, self@.repo, path@, self@.version),
                Err(e) => !path_all_normal(path@) && (e matches VdmError::GitHubPathOutsideRepository(p) && p@ == path@),
            },
    {
        if !path_all_normal_exec(chars_of(path).as_slice()) {
            return Err(VdmError::GitHubPathOutsideRepository(path.to_owned()));
        }
        Ok(Self::new(self.owner.clone(), self.repo.clone(), VdmManifestTargetPath::new(path), self.version.clone()))
    }

    /// The same file at another version.
    pub fn with_version(&self, version: &str) -> (r: Self)
        ensures
            r@ == spec_github_file(self@.owner, self@.repo, self@.path, version@),
    {
        Self::new(self.owner.clone(), self.repo.clone(), self.path.clone(), VdmManifestSourceVersion::new(version))
    }

    /// The URL the repository is fetched from.
    pub fn repository_url(&self) -> (r: String)
        ensures
            r@ == "https://github.com/"@ + self@.owner + seq!['/'] + self@.repo + ".git"@,
    {
        let mut r = chars_of("https://github.com/");
        push_all(&mut r, chars_of(self.owner.as_str()).as_slice());
        r.push('/');
        push_all(&mut r, chars_of(self.repo.as_str()).as_slice());
        push_all(&mut r, chars_of(".git").as_slice());
        assert(r@ =~= "https://github.com/"@ + self@.owner + seq!['/'] + self@.repo + ".git"@);
        string_of(r.as_slice())
    }
}

impl VdmTarget for VdmGitHubTarget {
    open spec fn key_view(&self) -> Seq<char> {
        self@.key
    }

    open spec fn version_view(&self) -> Seq<char> {
        self@.version
    }

    open spec fn source_url_view(&self) -> Seq<char> {
        self@.source_url
    }

    open spec fn vendor_path_view(&self) -> Seq<char> {
        spec_github_file_vendor_path(self@)
    }

    fn key(&self) -> (r: &VdmManifestTargetUrl) {
        &self.key
    }

    fn version(&self) -> (r: &VdmManifestSourceVersion) {
        &self.version
    }

    fn source_url(&self) -> (r: &str) {
        self.source_url.as_str()
    }

    fn vendor_path(&self) -> (r: String) {
        let v = github_file_vendor_path(
            chars_of(self.owner.as_str()).as_slice(),
            chars_of(self.repo.as_str()).as_slice(),
            self.path.to_chars().as_slice(),
        );
        string_of(v.as_slice())
    }
}

} // verus!
