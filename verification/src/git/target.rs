//! Targets inside Git repositories, on GitHub or at any repository URL.
use vstd::prelude::*;

use crate::error::{error_kind, VdmError};
use crate::globs::{glob_is_match, glob_is_usable, glob_matches, glob_usable};
use crate::hashing::{hex_lower, sha256, sha256_digest, to_hex};
use crate::manifest::target::{VdmManifestSourceVersion, VdmManifestTargetPath, VdmManifestTargetUrl};
use crate::path::{path_all_normal, path_all_normal_exec, path_join, path_join_exec};
use crate::text::{
    chars_of, concat2, eq_chars, has_glob_char, has_glob_char_exec, has_prefix, has_suffix,
    push_all, starts_with, string_of, trim_end_char, trim_end_char_exec,
};
use crate::target::VdmTarget;
use vstd::utf8::encode_utf8;

verus! {

/// The repository a Git target lives in.
#[derive(Debug)]
pub enum GitRepository {
    GitHub { owner: String, repo: String },
    Url(String),
}

/// The mathematical form of a [`GitRepository`].
pub enum GitRepositoryView {
    GitHub { owner: Seq<char>, repo: Seq<char> },
    Url(Seq<char>),
}

impl View for GitRepository {
    type V = GitRepositoryView;

    open spec fn view(&self) -> GitRepositoryView {
        match self {
            GitRepository::GitHub { owner, repo } => GitRepositoryView::GitHub {
                owner: owner@,
                repo: repo@,
            },
            GitRepository::Url(url) => GitRepositoryView::Url(url@),
        }
    }
}

/// A file, folder or glob inside a Git repository, at a version.
#[derive(Debug)]
pub struct VdmGitTarget {
    key: VdmManifestTargetUrl,
    repository: GitRepository,
    path: VdmManifestTargetPath,
    version: VdmManifestSourceVersion,
    source_url: String,
}

/// The mathematical form of a [`VdmGitTarget`].
pub struct GitTargetView {
    pub key: Seq<char>,
    pub repository: GitRepositoryView,
    pub path: Seq<char>,
    pub version: Seq<char>,
    pub source_url: Seq<char>,
}

impl View for VdmGitTarget {
    type V = GitTargetView;

    closed spec fn view(&self) -> GitTargetView {
        GitTargetView {
            key: self.key@,
            repository: self.repository@,
            path: self.path@,
            version: self.version@,
            source_url: self.source_url@,
        }
    }
}

/// `sep` followed by `path`, or nothing for an empty path.
pub open spec fn path_suffix(sep: char, path: Seq<char>) -> Seq<char> {
    if path.len() == 0 {
        Seq::empty()
    } else {
        seq![sep] + path
    }
}

/// The key of a GitHub target: `gh:owner/repo`, then `:path` for a non-empty path.
pub open spec fn spec_github_key(owner: Seq<char>, repo: Seq<char>, path: Seq<char>) -> Seq<char> {
    "gh:"@ + owner + seq!['/'] + repo + path_suffix(':', path)
}

/// Where a GitHub target can be browsed.
pub open spec fn spec_github_source_url(
    owner: Seq<char>,
    repo: Seq<char>,
    path: Seq<char>,
    version: Seq<char>,
) -> Seq<char> {
    "https://github.com/"@ + owner + seq!['/'] + repo + "/blob/"@ + version + seq!['/'] + path
}

/// The key of a target at a repository URL: `git:url`, then `:path` for a non-empty path.
pub open spec fn spec_git_key(url: Seq<char>, path: Seq<char>) -> Seq<char> {
    "git:"@ + url + path_suffix(':', path)
}

/// The GitHub target for `owner/repo` at `path` and `version`.
pub open spec fn spec_new_github(
    owner: Seq<char>,
    repo: Seq<char>,
    path: Seq<char>,
    version: Seq<char>,
) -> GitTargetView {
    GitTargetView {
        key: spec_github_key(owner, repo, path),
        repository: GitRepositoryView::GitHub { owner, repo },
        path,
        version,
        source_url: spec_github_source_url(owner, repo, path, version),
    }
}

/// The target at repository `url`, `path` and `version`; it is browsed as its key
/// followed by `@version`.
pub open spec fn spec_new_git(url: Seq<char>, path: Seq<char>, version: Seq<char>) -> GitTargetView {
    GitTargetView {
        key: spec_git_key(url, path),
        repository: GitRepositoryView::Url(url),
        path,
        version,
        source_url: spec_git_key(url, path) + seq!['@'] + version,
    }
}

/// The same target rebuilt at another path and version.
pub open spec fn spec_rebuild(t: GitTargetView, path: Seq<char>, version: Seq<char>) -> GitTargetView {
    match t.repository {
        GitRepositoryView::GitHub { owner, repo } => spec_new_github(owner, repo, path, version),
        GitRepositoryView::Url(url) => spec_new_git(url, path, version),
    }
}

/// The URL the repository is fetched from.
pub open spec fn spec_repository_url(r: GitRepositoryView) -> Seq<char> {
    match r {
        GitRepositoryView::GitHub { owner, repo } => "https://github.com/"@ + owner + seq!['/']
            + repo + ".git"@,
        GitRepositoryView::Url(url) => url,
    }
}

/// The hexadecimal SHA-256 digest of a URL's UTF-8 bytes.
pub open spec fn spec_url_digest(url: Seq<char>) -> Seq<char> {
    hex_lower(sha256_digest(encode_utf8(url)))
}

/// Where the repository is cached, relative to the cache root.
pub open spec fn spec_cache_path(r: GitRepositoryView) -> Seq<char> {
    match r {
        GitRepositoryView::GitHub { owner, repo } => path_join(
            path_join("github.com"@, owner),
            repo + ".git"@,
        ),
        GitRepositoryView::Url(url) => path_join("remotes"@, spec_url_digest(url) + ".git"@),
    }
}

/// The vendor folder of the repository, relative to `vendor/`.
pub open spec fn spec_vendor_root(r: GitRepositoryView) -> Seq<char> {
    match r {
        GitRepositoryView::GitHub { owner, repo } => path_join(path_join("@gh"@, owner), repo),
        GitRepositoryView::Url(url) => path_join("@git"@, spec_url_digest(url)),
    }
}

/// The glob pattern a path stands for, if it holds a glob character; a path
/// ending in `/` matches everything below it.
pub open spec fn spec_glob_pattern(path: Seq<char>) -> Option<Seq<char>> {
    if !has_glob_char(path) {
        None
    } else if has_suffix(path, seq!['/']) {
        Some(path + seq!['*', '*'])
    } else {
        Some(path)
    }
}

/// The path is a glob that `globset` refuses or cannot compile.
pub open spec fn spec_glob_rejected(path: Seq<char>) -> bool {
    match spec_glob_pattern(path) {
        Some(p) => !glob_usable(p),
        None => false,
    }
}

/// `path` lies strictly below the folder `folder` (trailing `/`s of the folder ignored).
pub open spec fn spec_below_folder(folder: Seq<char>, path: Seq<char>) -> bool {
    let f = trim_end_char(folder, '/');
    has_prefix(path, f) && path.len() > f.len() && path[f.len() as int] == '/'
}

/// Whether `file` is one of the files that the target `group` selects.
pub open spec fn spec_matches_member(group: GitTargetView, file: GitTargetView) -> Result<bool, VdmError> {
    if group.repository != file.repository {
        Ok(false)
    } else {
        match spec_glob_pattern(group.path) {
            Some(p) => if !glob_usable(p) {
                Err(error_kind(VdmError::InvalidGlob(arbitrary())))
            } else {
                Ok(glob_matches(p, file.path))
            },
            None => Ok(spec_below_folder(group.path, file.path)),
        }
    }
}

fn literal(s: &str) -> (r: Vec<char>)
    ensures
        r@ == s@,
{
    chars_of(s)
}

fn github_key(owner: &[char], repo: &[char], path: &[char]) -> (r: Vec<char>)
    ensures
        r@ == spec_github_key(owner@, repo@, path@),
{
    let mut r = literal("gh:");
    push_all(&mut r, owner);
    r.push('/');
    push_all(&mut r, repo);
    if path.len() > 0 {
        r.push(':');
        push_all(&mut r, path);
    }
    assert(r@ =~= spec_github_key(owner@, repo@, path@));
    r
}

fn github_source_url(owner: &[char], repo: &[char], path: &[char], version: &[char]) -> (r: Vec<char>)
    ensures
        r@ == spec_github_source_url(owner@, repo@, path@, version@),
{
    let mut r = literal("https://github.com/");
    push_all(&mut r, owner);
    r.push('/');
    push_all(&mut r, repo);
    push_all(&mut r, literal("/blob/").as_slice());
    push_all(&mut r, version);
    r.push('/');
    push_all(&mut r, path);
    assert(r@ =~= spec_github_source_url(owner@, repo@, path@, version@));
    r
}

fn git_key(url: &[char], path: &[char]) -> (r: Vec<char>)
    ensures
        r@ == spec_git_key(url@, path@),
{
    let mut r = literal("git:");
    push_all(&mut r, url);
    if path.len() > 0 {
        r.push(':');
        push_all(&mut r, path);
    }
    assert(r@ =~= spec_git_key(url@, path@));
    r
}

impl VdmGitTarget {
    /// The GitHub target for `owner/repo` at `path` and `version`.
    pub fn new_github(
        owner: String,
        repo: String,
        path: VdmManifestTargetPath,
        version: VdmManifestSourceVersion,
    ) -> (r: Self)
        ensures
            r@ == spec_new_github(owner@, repo@, path@, version@),
    {
        let o = chars_of(owner.as_str());
        let n = chars_of(repo.as_str());
        let p = path.to_chars();
        let v = version.to_chars();
        let key = github_key(o.as_slice(), n.as_slice(), p.as_slice());
        let source_url = github_source_url(o.as_slice(), n.as_slice(), p.as_slice(), v.as_slice());
        VdmGitTarget {
            key: VdmManifestTargetUrl::from_chars(key.as_slice()),
            repository: GitRepository::GitHub { owner, repo },
            path,
            version,
            source_url: string_of(source_url.as_slice()),
        }
    }

    /// The target at repository `url`, `path` and `version`.
    pub fn new_git(url: String, path: VdmManifestTargetPath, version: VdmManifestSourceVersion) -> (r: Self)
        ensures
            r@ == spec_new_git(url@, path@, version@),
    {
        let u = chars_of(url.as_str());
        let p = path.to_chars();
        let v = version.to_chars();
        let key = git_key(u.as_slice(), p.as_slice());
        let mut source_url = key.clone();
        source_url.push('@');
        push_all(&mut source_url, v.as_slice());
        assert(source_url@ =~= spec_git_key(url@, path@) + seq!['@'] + version@);
        VdmGitTarget {
            key: VdmManifestTargetUrl::from_chars(key.as_slice()),
            repository: GitRepository::Url(url),
            path,
            version,
            source_url: string_of(source_url.as_slice()),
        }
    }

    /// The URL the repository is fetched from.
    pub fn repository_url(&self) -> (r: String)
        ensures
            r@ == spec_repository_url(self@.repository),
    {
        match &self.repository {
            GitRepository::GitHub { owner, repo } => {
                let mut r = literal("https://github.com/");
                push_all(&mut r, chars_of(owner.as_str()).as_slice());
                r.push('/');
                push_all(&mut r, chars_of(repo.as_str()).as_slice());
                push_all(&mut r, literal(".git").as_slice());
                assert(r@ =~= spec_repository_url(self@.repository));
                string_of(r.as_slice())
            },
            GitRepository::Url(url) => url.clone(),
        }
    }

    /// Where the repository is cached, relative to the cache root.
    pub fn cache_path(&self) -> (r: String)
        ensures
            r@ == spec_cache_path(self@.repository),
    {
        match &self.repository {
            GitRepository::GitHub { owner, repo } => {
                let first = path_join_exec(
                    literal("github.com").as_slice(),
                    chars_of(owner.as_str()).as_slice(),
                );
                let name = concat2(chars_of(repo.as_str()).as_slice(), literal(".git").as_slice());
                string_of(path_join_exec(first.as_slice(), name.as_slice()).as_slice())
            },
            GitRepository::Url(url) => {
                let digest = to_hex(sha256(url.as_str().as_bytes()).as_slice());
                let name = concat2(digest.as_slice(), literal(".git").as_slice());
                string_of(path_join_exec(literal("remotes").as_slice(), name.as_slice()).as_slice())
            },
        }
    }

    /// The vendor folder of the repository, relative to `vendor/`.
    pub fn vendor_root(&self) -> (r: String)
        ensures
            r@ == spec_vendor_root(self@.repository),
    {
        match &self.repository {
            GitRepository::GitHub { owner, repo } => {
                let first = path_join_exec(
                    literal("@gh").as_slice(),
                    chars_of(owner.as_str()).as_slice(),
                );
                string_of(
                    path_join_exec(first.as_slice(), chars_of(repo.as_str()).as_slice()).as_slice(),
                )
            },
            GitRepository::Url(url) => {
                let digest = to_hex(sha256(url.as_str().as_bytes()).as_slice());
                string_of(path_join_exec(literal("@git").as_slice(), digest.as_slice()).as_slice())
            },
        }
    }

    /// The path inside the repository.
    pub fn path(&self) -> (r: &str)
        ensures
            r@ == self@.path,
    {
        self.path.as_str()
    }

    /// The path inside the repository.
    pub fn repository_path(&self) -> (r: &str)
        ensures
            r@ == self@.path,
    {
        self.path.as_str()
    }

    /// The glob pattern of the target, if its path is a glob.
    pub fn glob_pattern(&self) -> (r: Option<String>)
        ensures
            opt_seq(r) == spec_glob_pattern(self@.path),
    {
        let p = self.path.to_chars();
        if !has_glob_char_exec(p.as_slice()) {
            return None;
        }
        let slash: [char; 1] = ['/'];
        assert(slash@ =~= seq!['/']);
        if crate::text::ends_with(p.as_slice(), &slash) {
            let mut q = p.clone();
            q.push('*');
            q.push('*');
            assert(q@ =~= p@ + seq!['*', '*']);
            Some(string_of(q.as_slice()))
        } else {
            Some(string_of(p.as_slice()))
        }
    }

    /// Checks that the target's glob, if it has one, is accepted and compiled by `globset`.
    pub fn glob(&self) -> (r: Result<Option<String>, VdmError>)
        ensures
            match r {
                Ok(p) => !spec_glob_rejected(self@.path) && opt_seq(p) == spec_glob_pattern(self@.path),
                Err(e) => spec_glob_rejected(self@.path) && (e matches VdmError::InvalidGlob(p) && p@ == self@.path),
            },
    {
        match self.glob_pattern() {
            None => Ok(None),
            Some(p) => if glob_is_usable(p.as_str()) {
                Ok(Some(p))
            } else {
                Err(VdmError::InvalidGlob(self.path.as_str().to_owned()))
            },
        }
    }

    /// Whether `file` is one of the files that this target selects: same
    /// repository, and matched by the glob or lying below the folder.
    pub fn matches_member(&self, file: &Self) -> (r: Result<bool, VdmError>)
        ensures
            match r {
                Ok(b) => spec_matches_member(self@, file@) == Ok::<bool, VdmError>(b),
                Err(e) => spec_matches_member(self@, file@) == Err::<bool, VdmError>(error_kind(e)),
            },
    {
        if !same_repository(&self.repository, &file.repository) {
            return Ok(false);
        }
        match self.glob() {
            Err(e) => Err(e),
            Ok(Some(p)) => Ok(glob_is_match(p.as_str(), file.path.as_str())),
            Ok(None) => {
                let folder = trim_end_char_exec(self.path.to_chars().as_slice(), '/');
                let f = file.path.to_chars();
                let below = starts_with(f.as_slice(), folder.as_slice()) && f.len() > folder.len()
                    && f[folder.len()] == '/';
                Ok(below)
            },
        }
    }

    /// The same target at another path, which must stay inside the repository.
    pub fn with_path(&self, path: &str) -> (r: Result<Self, VdmError>)
        ensures
            match r {
                Ok(t) => path_all_normal(path@) && t@ == spec_rebuild(self@, path@, self@.version),
                Err(e) => !path_all_normal(path@) && (e matches VdmError::PathOutsideRepository(p) && p@ == path@),
            },
    {
        if !path_all_normal_exec(chars_of(path).as_slice()) {
            return Err(VdmError::PathOutsideRepository(path.to_owned()));
        }
        Ok(self.rebuild(VdmManifestTargetPath::new(path), self.version.clone()))
    }

    /// The same target at another version.
    pub fn with_version(&self, version: &str) -> (r: Self)
        ensures
            r@ == spec_rebuild(self@, self@.path, version@),
    {
        self.rebuild(self.path.clone(), VdmManifestSourceVersion::new(version))
    }

    /// The same repository at another path and version.
    pub fn rebuild(&self, path: VdmManifestTargetPath, version: VdmManifestSourceVersion) -> (r: Self)
        ensures
            r@ == spec_rebuild(self@, path@, version@),
    {
        match &self.repository {
            GitRepository::GitHub { owner, repo } => Self::new_github(
                owner.clone(),
                repo.clone(),
                path,
                version,
            ),
            GitRepository::Url(url) => Self::new_git(url.clone(), path, version),
        }
    }

    /// The repository of the target.
    pub fn repository(&self) -> (r: &GitRepository)
        ensures
            r@ == self@.repository,
    {
        &self.repository
    }
}

/// The characters of an optional string.
pub open spec fn opt_seq(s: Option<String>) -> Option<Seq<char>> {
    match s {
        Some(s) => Some(s@),
        None => None,
    }
}

/// Whether two repositories are the same.
pub fn same_repository(a: &GitRepository, b: &GitRepository) -> (r: bool)
    ensures
        r == (a@ == b@),
{
    match (a, b) {
        (GitRepository::GitHub { owner: o1, repo: r1 }, GitRepository::GitHub { owner: o2, repo: r2 }) => {
            eq_chars(chars_of(o1.as_str()).as_slice(), chars_of(o2.as_str()).as_slice())
                && eq_chars(chars_of(r1.as_str()).as_slice(), chars_of(r2.as_str()).as_slice())
        },
        (GitRepository::Url(u1), GitRepository::Url(u2)) => eq_chars(
            chars_of(u1.as_str()).as_slice(),
            chars_of(u2.as_str()).as_slice(),
        ),
        _ => false,
    }
}

impl VdmTarget for VdmGitTarget {
    open spec fn key_view(&self) -> Seq<char> {
        self@.key
    }

    open spec fn version_view(&self) -> Seq<char> {
        self@.version
    }

    open spec fn source_url_view(&self) -> Seq<char> {
        self@.source_url
    }

    open spec fn vendor_path_view(&self) -> Seq<char> {
        path_join(spec_vendor_root(self@.repository), self@.path)
    }

    fn key(&self) -> (r: &VdmManifestTargetUrl) {
        &self.key
    }

    fn version(&self) -> (r: &VdmManifestSourceVersion) {
        &self.version
    }

    fn source_url(&self) -> (r: &str) {
        self.source_url.as_str()
    }

    fn vendor_path(&self) -> (r: String) {
        let root = chars_of(self.vendor_root().as_str());
        string_of(path_join_exec(root.as_slice(), self.path.to_chars().as_slice()).as_slice())
    }
}

/// A folder target holds every file below it, at any depth: for a group path
/// with no glob character and a file of the same repository whose path is the
/// group path (trailing `/`s dropped), a `/` and any rest (which may itself
/// hold `/`s), the file is a member; and a file is a member only when its
/// path has that form.
pub proof fn lemma_folder_holds_files_below(group: GitTargetView, file: GitTargetView, rest: Seq<char>)
    requires
        !has_glob_char(group.path),
        group.repository == file.repository,
    ensures
        file.path == trim_end_char(group.path, '/') + seq!['/'] + rest
            ==> spec_matches_member(group, file) == Ok::<bool, VdmError>(true),
        spec_matches_member(group, file) == Ok::<bool, VdmError>(true) ==> exists|r: Seq<char>|
            file.path == #[trigger] (trim_end_char(group.path, '/') + seq!['/'] + r),
{
    let f = trim_end_char(group.path, '/');
    if file.path == f + seq!['/'] + rest {
        assert(file.path.take(f.len() as int) =~= f);
        assert(file.path[f.len() as int] == '/');
    }
    if spec_matches_member(group, file) == Ok::<bool, VdmError>(true) {
        let r = file.path.skip(f.len() as int + 1);
        assert(file.path =~= f + seq!['/'] + r) by {
            assert(file.path.take(f.len() as int) == f);
        }
        assert(file.path == trim_end_char(group.path, '/') + seq!['/'] + r);
    }
}

} // verus!
