//! Reading Git targets: `<repository-url>[:path][@ref]`, optionally behind an
//! explicit `git:` prefix.
use vstd::prelude::*;

use crate::error::{error_kind, VdmError};
use crate::git::target::{spec_glob_rejected, spec_new_git, GitTargetView, VdmGitTarget};
use crate::manifest::target::{VdmManifestSourceVersion, VdmManifestTargetPath};
use crate::path::{
    normalize_repository_path, path_all_normal, path_all_normal_exec, spec_normalize_repository_path,
};
use crate::refs::{git_ref_name_valid, ref_name_is_valid};
use crate::text::{
    all_hex, all_hex_exec, chars_of, concat2, contains_char, ends_with, eq_chars, find_char,
    find_char_exec, find_seq, find_seq_exec, has_prefix, has_suffix, lemma_find_char_from_bounds,
    rfind_char, rfind_char_exec, slice_chars, starts_with, string_of, trim_end_char,
    trim_end_char_exec, trim_start_char, trim_start_char_exec,
};
use crate::url_parts::{parse_url, url_parse, UrlParts, UrlView};

verus! {

/// The source of targets at any Git repository URL.
#[derive(Debug)]
pub struct VdmGitSource;

/// `://`, which ends a URL scheme.
pub open spec fn scheme_sep() -> Seq<char> {
    seq![':', '/', '/']
}

/// The input has the explicit `git:` prefix (and is not a `git://` URL).
pub open spec fn spec_is_explicit_git(input: Seq<char>) -> bool {
    has_prefix(input, "git:"@) && !has_prefix(input, "git://"@)
}

/// The input without an explicit `git:` prefix.
pub open spec fn spec_strip_explicit_git(input: Seq<char>) -> Seq<char> {
    if spec_is_explicit_git(input) {
        input.skip("git:"@.len() as int)
    } else {
        input
    }
}

/// A scheme under which Git repositories are fetched.
pub open spec fn spec_is_git_scheme(s: Seq<char>) -> bool {
    s == "http"@ || s == "https"@ || s == "ssh"@ || s == "git"@ || s == "file"@
}

/// An HTTP scheme.
pub open spec fn spec_is_http_scheme(s: Seq<char>) -> bool {
    s == "http"@ || s == "https"@
}

/// Position of the first `?` or `#` at or after `i`, or the length.
pub open spec fn query_start_from(s: Seq<char>, i: int) -> int
    decreases s.len() - i,
{
    if i < 0 || i >= s.len() {
        s.len() as int
    } else if s[i] == '?' || s[i] == '#' {
        i
    } else {
        query_start_from(s, i + 1)
    }
}

/// The repository and the path of `<url>:<path>`, looking for the `:` only in
/// the URL path (after the authority, before any query or fragment); an
/// HTTP content pin `@sha256:` is not a path separator.
pub open spec fn spec_split_repository_path(input: Seq<char>) -> Option<(Seq<char>, Seq<char>)> {
    match find_seq(input, scheme_sep()) {
        None => None,
        Some(i) => {
            let rest = input.skip(i + 3);
            match find_char(rest, '/') {
                None => None,
                Some(j) => {
                    let start = i + 3 + j;
                    let tail = input.skip(start);
                    let path = tail.take(query_start_from(tail, 0));
                    match find_char(path, ':') {
                        None => None,
                        Some(k) => {
                            let sep = start + k;
                            let repository = input.take(sep);
                            if has_suffix(repository, "@sha256"@) {
                                None
                            } else {
                                Some((repository, input.skip(sep + 1)))
                            }
                        },
                    }
                },
            }
        },
    }
}

/// `path@version`, split at the last `@` when something precedes it; `HEAD` otherwise.
pub open spec fn spec_split_version(input: Seq<char>) -> (Seq<char>, Seq<char>) {
    match rfind_char(input, '@') {
        Some(k) => if k > 0 {
            (input.take(k), input.skip(k + 1))
        } else {
            (input, "HEAD"@)
        },
        None => (input, "HEAD"@),
    }
}

/// `url@version` for a URL without a path separator: the last `@` splits off a
/// version only when it lies after the start of the URL path.
pub open spec fn spec_split_url_version(input: Seq<char>) -> (Seq<char>, Seq<char>) {
    match find_seq(input, scheme_sep()) {
        None => (input, "HEAD"@),
        Some(i) => {
            let start = i + 3;
            match find_char(input.skip(start), '/') {
                None => (input, "HEAD"@),
                Some(j) => {
                    let path_start = start + j;
                    match rfind_char(input, '@') {
                        Some(k) => if k > path_start {
                            (input.take(k), input.skip(k + 1))
                        } else {
                            (input, "HEAD"@)
                        },
                        None => (input, "HEAD"@),
                    }
                },
            }
        },
    }
}

/// Where the text of a Git target stands before its URL is parsed.
pub enum GitLocate {
    /// Not a Git target.
    NotGit,
    /// An explicit Git target that is malformed.
    Refused(VdmError),
    /// A candidate repository URL, path and version.
    Found { repository: Seq<char>, path: Seq<char>, version: Seq<char> },
}

/// Splits a Git target into repository URL, path and version.
pub open spec fn spec_git_locate(given: Seq<char>) -> GitLocate {
    let explicit = spec_is_explicit_git(given);
    let input = spec_strip_explicit_git(given);
    match find_seq(input, scheme_sep()) {
        None => if explicit {
            GitLocate::Refused(VdmError::InvalidGitRepositoryUrl)
        } else {
            GitLocate::NotGit
        },
        Some(i) => {
            let scheme = input.take(i);
            if !spec_is_git_scheme(scheme) {
                if explicit {
                    GitLocate::Refused(VdmError::UnsupportedGitScheme)
                } else {
                    GitLocate::NotGit
                }
            } else {
                match spec_split_repository_path(input) {
                    Some((repository, rest)) => {
                        let (path, version) = spec_split_version(rest);
                        GitLocate::Found { repository, path, version }
                    },
                    None => {
                        let (repository, version) = spec_split_url_version(input);
                        if !explicit && spec_is_http_scheme(scheme) && !has_suffix(
                            trim_end_char(repository, '/'),
                            ".git"@,
                        ) {
                            GitLocate::NotGit
                        } else {
                            GitLocate::Found { repository, path: Seq::empty(), version }
                        }
                    },
                }
            }
        },
    }
}

/// The checks on a parsed repository URL; the repository is its serialization
/// without trailing `/`.
pub open spec fn spec_check_git_url(url: Option<UrlView>) -> Result<Seq<char>, VdmError> {
    match url {
        None => Err(VdmError::InvalidGitRepositoryUrl),
        Some(u) => if !spec_is_git_scheme(u.scheme) {
            Err(VdmError::UnsupportedGitScheme)
        } else if !(u.query is None && u.fragment is None) {
            Err(VdmError::GitUrlWithQueryOrFragment)
        } else if !(u.scheme == "file"@ || u.host is Some) {
            Err(VdmError::GitUrlWithoutHost)
        } else if trim_start_char(trim_end_char(u.path, '/'), '/').len() == 0 {
            Err(VdmError::GitUrlWithoutRepositoryPath)
        } else {
            Ok(trim_end_char(u.serialization, '/'))
        },
    }
}

/// A full commit SHA: forty hexadecimal digits.
pub open spec fn spec_is_commit_sha(v: Seq<char>) -> bool {
    v.len() == 40 && all_hex(v)
}

/// A version is a commit SHA or a valid branch name.
pub open spec fn spec_version_ref_ok(v: Seq<char>) -> bool {
    spec_is_commit_sha(v) || git_ref_name_valid("refs/heads/"@ + v)
}

/// Checking a version never hands `git2` a name with a NUL character.
pub open spec fn spec_version_check_safe(v: Seq<char>) -> bool {
    spec_is_commit_sha(v) || !v.contains('\0')
}

/// A repository path must be made of plain names; a version must be a
/// non-empty ref or commit SHA.
pub open spec fn spec_validate_path_and_version(path: Seq<char>, version: Seq<char>) -> Option<VdmError> {
    if !path_all_normal(path) {
        Some(VdmError::UnsafeRepositoryPath)
    } else if !(version.len() > 0 && spec_version_ref_ok(version)) {
        Some(VdmError::InvalidVersion)
    } else {
        None
    }
}

/// Validating `path` and `version` is free of the panic in `git2`.
pub open spec fn spec_validate_safe(path: Seq<char>, version: Seq<char>) -> bool {
    path_all_normal(path) ==> spec_version_check_safe(version)
}

/// Builds the Git target once the repository URL has been parsed.
pub open spec fn spec_git_finish(url: Option<UrlView>, path: Seq<char>, version: Seq<char>) -> Result<
    GitTargetView,
    VdmError,
> {
    match spec_check_git_url(url) {
        Err(e) => Err(e),
        Ok(u) => match spec_normalize_repository_path(path) {
            Err(e) => Err(e),
            Ok(p) => match spec_validate_path_and_version(p, version) {
                Some(e) => Err(e),
                None => if spec_glob_rejected(p) {
                    Err(error_kind(VdmError::InvalidGlob(arbitrary())))
                } else {
                    Ok(spec_new_git(u, p, version))
                },
            },
        },
    }
}

/// Building the target is free of the panic in `git2`.
pub open spec fn spec_git_finish_safe(url: Option<UrlView>, path: Seq<char>, version: Seq<char>) -> bool {
    match spec_check_git_url(url) {
        Err(_) => true,
        Ok(_) => match spec_normalize_repository_path(path) {
            Err(_) => true,
            Ok(p) => spec_validate_safe(p, version),
        },
    }
}

/// What the Git source makes of an input: `Ok(None)` when it is not a Git target.
pub open spec fn spec_git_parse(input: Seq<char>) -> Result<Option<GitTargetView>, VdmError> {
    match spec_git_locate(input) {
        GitLocate::NotGit => Ok(None),
        GitLocate::Refused(e) => Err(e),
        GitLocate::Found { repository, path, version } => match spec_git_finish(
            url_parse(repository),
            path,
            version,
        ) {
            Ok(t) => Ok(Some(t)),
            Err(e) => Err(e),
        },
    }
}

/// Parsing `input` as a Git target is free of the panic in `git2`.
pub open spec fn spec_git_parse_safe(input: Seq<char>) -> bool {
    match spec_git_locate(input) {
        GitLocate::Found { repository, path, version } => spec_git_finish_safe(
            url_parse(repository),
            path,
            version,
        ),
        _ => true,
    }
}

/// The view of an optional target result.
pub open spec fn git_result_view(r: Result<Option<VdmGitTarget>, VdmError>) -> Result<
    Option<GitTargetView>,
    VdmError,
> {
    match r {
        Ok(Some(t)) => Ok(Some(t@)),
        Ok(None) => Ok(None),
        Err(e) => Err(error_kind(e)),
    }
}

pub open spec fn git_target_result_view(r: Result<VdmGitTarget, VdmError>) -> Result<
    GitTargetView,
    VdmError,
> {
    match r {
        Ok(t) => Ok(t@),
        Err(e) => Err(error_kind(e)),
    }
}

fn literal(s: &str) -> (r: Vec<char>)
    ensures
        r@ == s@,
{
    chars_of(s)
}

fn scheme_sep_exec() -> (r: Vec<char>)
    ensures
        r@ == scheme_sep(),
{
    let r = vec![':', '/', '/'];
    assert(r@ =~= scheme_sep());
    r
}

fn is_git_scheme(s: &[char]) -> (r: bool)
    ensures
        r == spec_is_git_scheme(s@),
{
    eq_chars(s, literal("http").as_slice()) || eq_chars(s, literal("https").as_slice()) || eq_chars(
        s,
        literal("ssh").as_slice(),
    ) || eq_chars(s, literal("git").as_slice()) || eq_chars(s, literal("file").as_slice())
}

fn is_http_scheme(s: &[char]) -> (r: bool)
    ensures
        r == spec_is_http_scheme(s@),
{
    eq_chars(s, literal("http").as_slice()) || eq_chars(s, literal("https").as_slice())
}

/// Position of the first `?` or `#`, or the length.
fn query_start(s: &[char]) -> (r: usize)
    ensures
        r == query_start_from(s@, 0),
        r <= s@.len(),
{
    let mut i: usize = 0;
    while i < s.len()
        invariant
            i <= s@.len(),
            query_start_from(s@, 0) == query_start_from(s@, i as int),
        decreases s@.len() - i,
    {
        if s[i] == '?' || s[i] == '#' {
            return i;
        }
        i += 1;
    }
    i
}

proof fn lemma_find_seq_bounds(s: Seq<char>, p: Seq<char>, start: int)
    ensures
        find_seq_from(s, p, start) matches Some(i) ==> start <= i && i + p.len() <= s.len(),
    decreases s.len() + 1 - start,
{
    if !(start < 0 || start + p.len() > s.len()) && !crate::text::occurs_at(s, p, start) {
        lemma_find_seq_bounds(s, p, start + 1);
    }
}

use crate::text::find_seq_from;

/// The start of the query or fragment lies between `i` and the end.
pub proof fn lemma_query_start_bounds(s: Seq<char>, i: int)
    requires
        0 <= i <= s.len(),
    ensures
        i <= query_start_from(s, i) <= s.len(),
    decreases s.len() - i,
{
    if i < s.len() && !(s[i] == '?' || s[i] == '#') {
        lemma_query_start_bounds(s, i + 1);
    }
}

proof fn lemma_rfind_bounds(s: Seq<char>, c: char, end: int)
    ensures
        crate::text::rfind_char_before(s, c, end) matches Some(k) ==> 0 <= k < end <= s.len(),
    decreases end,
{
    if 0 < end <= s.len() && s[end - 1] != c {
        lemma_rfind_bounds(s, c, end - 1);
    }
}

impl VdmGitSource {
    /// Whether the input carries the explicit `git:` prefix.
    pub fn is_explicit(input: &[char]) -> (r: bool)
        ensures
            r == spec_is_explicit_git(input@),
    {
        starts_with(input, literal("git:").as_slice()) && !starts_with(
            input,
            literal("git://").as_slice(),
        )
    }

    /// Splits `<url>:<path>` into repository URL and path.
    pub fn split_repository_path(input: &[char]) -> (r: Option<(Vec<char>, Vec<char>)>)
        ensures
            match r {
                Some((a, b)) => spec_split_repository_path(input@) == Some((a@, b@)),
                None => spec_split_repository_path(input@) is None,
            },
    {
        let sep = scheme_sep_exec();
        let i = match find_seq_exec(input, sep.as_slice()) {
            None => return None,
            Some(i) => i,
        };
        proof {
            lemma_find_seq_bounds(input@, scheme_sep(), 0);
        }
        let n = input.len();
        assert(i + 3 <= n);
        let rest = slice_chars(input, i + 3, input.len());
        assert(rest@ =~= input@.skip(i + 3));
        let j = match find_char_exec(rest.as_slice(), '/') {
            None => return None,
            Some(j) => j,
        };
        proof {
            lemma_find_char_from_bounds(rest@, '/', 0);
        }
        let start = i + 3 + j;
        let tail = slice_chars(input, start, input.len());
        assert(tail@ =~= input@.skip(start as int));
        let q = query_start(tail.as_slice());
        let path = slice_chars(tail.as_slice(), 0, q);
        assert(path@ =~= tail@.take(q as int));
        let k = match find_char_exec(path.as_slice(), ':') {
            None => return None,
            Some(k) => k,
        };
        proof {
            lemma_find_char_from_bounds(path@, ':', 0);
        }
        let sepi = start + k;
        let repository = slice_chars(input, 0, sepi);
        assert(repository@ =~= input@.take(sepi as int));
        if ends_with(repository.as_slice(), literal("@sha256").as_slice()) {
            return None;
        }
        let after = slice_chars(input, sepi + 1, input.len());
        assert(after@ =~= input@.skip(sepi + 1));
        Some((repository, after))
    }

    /// Splits `path@version`; the version defaults to `HEAD`.
    pub fn split_version(input: &[char]) -> (r: (Vec<char>, Vec<char>))
        ensures
            spec_split_version(input@) == (r.0@, r.1@),
    {
        proof {
            lemma_rfind_bounds(input@, '@', input@.len() as int);
        }
        let n = input.len();
        match rfind_char_exec(input, '@') {
            Some(k) => if k > 0 {
                let a = slice_chars(input, 0, k);
                let b = slice_chars(input, k + 1, input.len());
                assert(a@ =~= input@.take(k as int));
                assert(b@ =~= input@.skip(k + 1));
                (a, b)
            } else {
                (slice_chars(input, 0, input.len()), literal("HEAD"))
            },
            None => (slice_chars(input, 0, input.len()), literal("HEAD")),
        }
    }

    /// Splits `url@version` for a URL without a repository path separator.
    pub fn split_url_version(input: &[char]) -> (r: (Vec<char>, Vec<char>))
        ensures
            spec_split_url_version(input@) == (r.0@, r.1@),
    {
        assert(input@.subrange(0, input@.len() as int) =~= input@);
        let sep = scheme_sep_exec();
        let i = match find_seq_exec(input, sep.as_slice()) {
            None => return (slice_chars(input, 0, input.len()), literal("HEAD")),
            Some(i) => i,
        };
        proof {
            lemma_find_seq_bounds(input@, scheme_sep(), 0);
        }
        let n = input.len();
        assert(i + 3 <= n);
        let start = i + 3;
        let rest = slice_chars(input, start, input.len());
        assert(rest@ =~= input@.skip(start as int));
        let j = match find_char_exec(rest.as_slice(), '/') {
            None => return (slice_chars(input, 0, input.len()), literal("HEAD")),
            Some(j) => j,
        };
        proof {
            lemma_find_char_from_bounds(rest@, '/', 0);
            lemma_rfind_bounds(input@, '@', input@.len() as int);
        }
        let path_start = start + j;
        match rfind_char_exec(input, '@') {
            Some(k) => if k > path_start {
                let a = slice_chars(input, 0, k);
                let b = slice_chars(input, k + 1, input.len());
                assert(a@ =~= input@.take(k as int));
                assert(b@ =~= input@.skip(k + 1));
                (a, b)
            } else {
                (slice_chars(input, 0, input.len()), literal("HEAD"))
            },
            None => (slice_chars(input, 0, input.len()), literal("HEAD")),
        }
    }

    /// Splits a Git target into repository URL, path and version: `Ok(None)`
    /// when the input is not a Git target, `Err` when it is an explicit one
    /// that is malformed.
    pub fn locate(given: &[char]) -> (r: Result<Option<(Vec<char>, Vec<char>, Vec<char>)>, VdmError>)
        ensures
            match r {
                Ok(Some((a, b, c))) => spec_git_locate(given@) == (GitLocate::Found {
                    repository: a@,
                    path: b@,
                    version: c@,
                }),
                Ok(None) => spec_git_locate(given@) == GitLocate::NotGit,
                Err(e) => spec_git_locate(given@) == GitLocate::Refused(e),
            },
    {
        let explicit = Self::is_explicit(given);
        let input = if explicit {
            let n = literal("git:").len();
            slice_chars(given, n, given.len())
        } else {
            slice_chars(given, 0, given.len())
        };
        assert(input@ =~= spec_strip_explicit_git(given@));
        let sep = scheme_sep_exec();
        let i = match find_seq_exec(input.as_slice(), sep.as_slice()) {
            None => {
                if explicit {
                    return Err(VdmError::InvalidGitRepositoryUrl);
                }
                return Ok(None);
            },
            Some(i) => i,
        };
        proof {
            lemma_find_seq_bounds(input@, scheme_sep(), 0);
        }
        let scheme = slice_chars(input.as_slice(), 0, i);
        assert(scheme@ =~= input@.take(i as int));
        if !is_git_scheme(scheme.as_slice()) {
            if explicit {
                return Err(VdmError::UnsupportedGitScheme);
            }
            return Ok(None);
        }
        match Self::split_repository_path(input.as_slice()) {
            Some((repository, rest)) => {
                let (path, version) = Self::split_version(rest.as_slice());
                Ok(Some((repository, path, version)))
            },
            None => {
                let (repository, version) = Self::split_url_version(input.as_slice());
                if !explicit && is_http_scheme(scheme.as_slice()) && !ends_with(
                    trim_end_char_exec(repository.as_slice(), '/').as_slice(),
                    literal(".git").as_slice(),
                ) {
                    return Ok(None);
                }
                Ok(Some((repository, Vec::new(), version)))
            },
        }
    }

    /// Checks a parsed repository URL and gives the repository URL to keep:
    /// its serialization without trailing `/`.
    pub fn check_repository_url(url: &Option<UrlParts>) -> (r: Result<Vec<char>, VdmError>)
        ensures
            match r {
                Ok(u) => spec_check_git_url(opt_url_view(url)) == Ok::<Seq<char>, VdmError>(u@),
                Err(e) => spec_check_git_url(opt_url_view(url)) == Err::<Seq<char>, VdmError>(e),
            },
    {
        match url {
            None => Err(VdmError::InvalidGitRepositoryUrl),
            Some(u) => {
                let scheme = chars_of(u.scheme.as_str());
                if !is_git_scheme(scheme.as_slice()) {
                    return Err(VdmError::UnsupportedGitScheme);
                }
                if !(u.query.is_none() && u.fragment.is_none()) {
                    return Err(VdmError::GitUrlWithQueryOrFragment);
                }
                if !(eq_chars(scheme.as_slice(), literal("file").as_slice()) || u.host.is_some()) {
                    return Err(VdmError::GitUrlWithoutHost);
                }
                let path = chars_of(u.path.as_str());
                let trimmed = trim_start_char_exec(
                    trim_end_char_exec(path.as_slice(), '/').as_slice(),
                    '/',
                );
                if trimmed.len() == 0 {
                    return Err(VdmError::GitUrlWithoutRepositoryPath);
                }
                Ok(trim_end_char_exec(chars_of(u.serialization.as_str()).as_slice(), '/'))
            },
        }
    }

    /// The canonical form of a repository path.
    pub fn normalize_path(path: &str) -> (r: Result<String, VdmError>)
        ensures
            match r {
                Ok(p) => spec_normalize_repository_path(path@) == Ok::<Seq<char>, VdmError>(p@),
                Err(e) => spec_normalize_repository_path(path@) == Err::<Seq<char>, VdmError>(e),
            },
    {
        match normalize_repository_path(chars_of(path).as_slice()) {
            Ok(p) => Ok(string_of(p.as_slice())),
            Err(e) => Err(e),
        }
    }

    /// Whether a version is a full commit SHA.
    pub fn is_commit_sha(version: &[char]) -> (r: bool)
        ensures
            r == spec_is_commit_sha(version@),
    {
        version.len() == 40 && all_hex_exec(version)
    }

    /// Checks that a repository path is made of plain names and that a version
    /// is a non-empty ref or commit SHA.
    pub fn validate_git_path_and_version(path: &str, version: &str) -> (r: Result<(), VdmError>)
        requires
            spec_validate_safe(path@, version@),
        ensures
            match r {
                Ok(()) => spec_validate_path_and_version(path@, version@) is None,
                Err(e) => spec_validate_path_and_version(path@, version@) == Some(e),
            },
    {
        if !path_all_normal_exec(chars_of(path).as_slice()) {
            return Err(VdmError::UnsafeRepositoryPath);
        }
        let v = chars_of(version);
        let valid_ref = if Self::is_commit_sha(v.as_slice()) {
            true
        } else {
            let name = concat2(literal("refs/heads/").as_slice(), v.as_slice());
            assert(!name@.contains('\0')) by {
                if name@.contains('\0') {
                    let k = choose|k: int| 0 <= k < name@.len() && name@[k] == '\0';
                    if k >= "refs/heads/"@.len() {
                        assert(v@[k - "refs/heads/"@.len()] == '\0');
                    } else {
                        assert(("refs/heads/"@).contains('\0'));
                        reveal_strlit("refs/heads/");
                    }
                }
            }
            ref_name_is_valid(string_of(name.as_slice()).as_str())
        };
        if !(v.len() > 0 && valid_ref) {
            return Err(VdmError::InvalidVersion);
        }
        Ok(())
    }

    /// Builds the Git target once the repository URL has been parsed.
    pub fn finish(url: &Option<UrlParts>, path: &[char], version: &[char]) -> (r: Result<
        VdmGitTarget,
        VdmError,
    >)
        requires
            spec_git_finish_safe(opt_url_view(url), path@, version@),
        ensures
            git_target_result_view(r) == spec_git_finish(opt_url_view(url), path@, version@),
    {
        let repository = match Self::check_repository_url(url) {
            Ok(u) => u,
            Err(e) => return Err(e),
        };
        let normalized = match normalize_repository_path(path) {
            Ok(p) => p,
            Err(e) => return Err(e),
        };
        let p = string_of(normalized.as_slice());
        let v = string_of(version);
        match Self::validate_git_path_and_version(p.as_str(), v.as_str()) {
            Ok(()) => {},
            Err(e) => return Err(e),
        }
        let target = VdmGitTarget::new_git(
            string_of(repository.as_slice()),
            VdmManifestTargetPath::new(p.as_str()),
            VdmManifestSourceVersion::new(v.as_str()),
        );
        match target.glob() {
            Ok(_) => Ok(target),
            Err(e) => Err(e),
        }
    }

    /// Reads `input` as a Git target: `Ok(None)` when it is not one.
    pub fn parse_target(&self, input: &str) -> (r: Result<Option<VdmGitTarget>, VdmError>)
        requires
            spec_git_parse_safe(input@),
        ensures
            git_result_view(r) == spec_git_parse(input@),
    {
        let chars = chars_of(input);
        match Self::locate(chars.as_slice()) {
            Err(e) => Err(e),
            Ok(None) => Ok(None),
            Ok(Some((repository, path, version))) => {
                let url = parse_url(string_of(repository.as_slice()).as_str()).ok();
                match Self::finish(&url, path.as_slice(), version.as_slice()) {
                    Ok(t) => Ok(Some(t)),
                    Err(e) => Err(e),
                }
            },
        }
    }
}

/// The view of an optional parsed URL.
pub open spec fn opt_url_view(u: &Option<UrlParts>) -> Option<UrlView> {
    match u {
        Some(u) => Some(u@),
        None => None,
    }
}

} // verus!
