//! Reading GitHub targets: `gh:owner/repo[:path][@version]`, and the URL forms
//! of a GitHub repository that stand for it.
use vstd::prelude::*;

use crate::error::{error_kind, VdmError};
use crate::git::parse::{
    opt_url_view, scheme_sep, spec_is_explicit_git, spec_strip_explicit_git,
    spec_validate_path_and_version, spec_validate_safe, git_result_view, VdmGitSource,
};
use crate::git::target::{spec_glob_rejected, spec_new_github, GitRepositoryView, GitTargetView, VdmGitTarget};
use crate::manifest::target::{VdmManifestSourceVersion, VdmManifestTargetPath};
use crate::path::{
    component_is_normal, component_is_normal_exec, dot, dot_dot, lemma_normalize_idempotent, normalize_repository_path,
    spec_normalize_repository_path,
};
use crate::text::{
    chars_of, contains_char, eq_chars, find_char, find_char_exec, find_seq, find_seq_exec,
    has_prefix, has_suffix, lemma_find_char_from_bounds, push_all, rfind_char, rfind_char_exec,
    slice_chars, starts_with, ends_with, string_of, trim_end_char, trim_end_char_exec,
};
use crate::url_parts::{parse_url, url_parse, UrlParts, UrlView};

verus! {

/// The source of targets in GitHub repositories.
#[derive(Debug)]
pub struct VdmGithubSource;

/// How the text of a possible GitHub target begins.
pub enum GitHubPrefix {
    /// Not a GitHub form.
    NotGitHub,
    /// A GitHub form; the rest is `owner/repo...`.
    Direct(Seq<char>),
    /// A URL whose host decides: `probe` is `scheme://authority/`, `source` the rest.
    NeedsHost { probe: Seq<char>, source: Seq<char> },
}

/// A scheme under which GitHub repositories are reached.
pub open spec fn spec_is_github_scheme(s: Seq<char>) -> bool {
    s == "https"@ || s == "http"@ || s == "ssh"@ || s == "git"@
}

/// Recognizes `gh:`, `github.com/`, `git@github.com:` and `git@github.com/`
/// (after an optional explicit `git:`), and URLs that may point at GitHub.
pub open spec fn spec_github_prefix(given: Seq<char>) -> GitHubPrefix {
    let input = spec_strip_explicit_git(given);
    if has_prefix(input, "gh:"@) {
        GitHubPrefix::Direct(input.skip("gh:"@.len() as int))
    } else if has_prefix(input, "github.com/"@) {
        GitHubPrefix::Direct(input.skip("github.com/"@.len() as int))
    } else if has_prefix(input, "git@github.com:"@) {
        GitHubPrefix::Direct(input.skip("git@github.com:"@.len() as int))
    } else if has_prefix(input, "git@github.com/"@) {
        GitHubPrefix::Direct(input.skip("git@github.com/"@.len() as int))
    } else {
        match find_seq(input, scheme_sep()) {
            None => GitHubPrefix::NotGitHub,
            Some(i) => {
                let scheme = input.take(i);
                if !spec_is_github_scheme(scheme) {
                    GitHubPrefix::NotGitHub
                } else {
                    let rest = input.skip(i + 3);
                    match find_char(rest, '/') {
                        None => GitHubPrefix::NotGitHub,
                        Some(j) => GitHubPrefix::NeedsHost {
                            probe: scheme + scheme_sep() + rest.take(j) + seq!['/'],
                            source: rest.skip(j + 1),
                        },
                    }
                }
            },
        }
    }
}

/// `gh:` and the source, whose trailing `/` go when it has no path separator.
pub open spec fn spec_github_canonical(source: Seq<char>) -> Seq<char> {
    "gh:"@ + (if source.contains(':') {
        source
    } else {
        trim_end_char(source, '/')
    })
}

/// Whether a parsed probe URL has the host `github.com`.
pub open spec fn spec_host_is_github(url: Option<UrlView>) -> Result<bool, VdmError> {
    match url {
        None => Err(error_kind(VdmError::InvalidGitHubUrl(arbitrary()))),
        Some(u) => Ok(u.host == Some("github.com"@)),
    }
}

/// The canonical `gh:` form of a GitHub target, `Ok(None)` when it is not one.
pub open spec fn spec_github_input(given: Seq<char>) -> Result<Option<Seq<char>>, VdmError> {
    match spec_github_prefix(given) {
        GitHubPrefix::NotGitHub => Ok(None),
        GitHubPrefix::Direct(source) => Ok(Some(spec_github_canonical(source))),
        GitHubPrefix::NeedsHost { probe, source } => match spec_host_is_github(url_parse(probe)) {
            Err(e) => Err(e),
            Ok(false) => Ok(None),
            Ok(true) => Ok(Some(spec_github_canonical(source))),
        },
    }
}

/// A character that may appear in an owner or repository name.
pub open spec fn is_component_char(c: char) -> bool {
    c != '/' && c != '@' && c != ':'
}

/// The end of the run of name characters starting at `i`.
pub open spec fn component_end(s: Seq<char>, i: int) -> int
    decreases s.len() - i,
{
    if i < 0 || i >= s.len() {
        if i < 0 { 0 } else { s.len() as int }
    } else if !is_component_char(s[i]) {
        i
    } else {
        component_end(s, i + 1)
    }
}

/// A path followed by `@version`, where the version is what follows the last
/// `@` when that is not the last character.
pub open spec fn spec_split_path_version(tail: Seq<char>) -> (Seq<char>, Option<Seq<char>>) {
    match rfind_char(tail, '@') {
        Some(k) => if k + 1 < tail.len() {
            (tail.take(k), Some(tail.skip(k + 1)))
        } else {
            (tail, None)
        },
        None => (tail, None),
    }
}

/// The grammar `gh:owner/repo[:path][@version]`: owner and repository are
/// non-empty runs without `/`, `@` and `:`; the version is a non-empty run
/// without `@` at the very end.
pub open spec fn spec_github_grammar(input: Seq<char>) -> Option<(Seq<char>, Seq<char>, Seq<char>, Option<Seq<char>>)> {
    if !has_prefix(input, "gh:"@) {
        None
    } else {
        let s = input.skip("gh:"@.len() as int);
        let a = component_end(s, 0);
        if a == 0 || a >= s.len() || s[a] != '/' {
            None
        } else {
            let b = component_end(s, a + 1);
            if b == a + 1 {
                None
            } else {
                let owner = s.subrange(0, a);
                let repo = s.subrange(a + 1, b);
                if b == s.len() {
                    Some((owner, repo, Seq::empty(), None))
                } else if s[b] == ':' {
                    let (path, version) = spec_split_path_version(s.skip(b + 1));
                    Some((owner, repo, path, version))
                } else if s[b] == '@' {
                    let v = s.skip(b + 1);
                    if v.len() > 0 && !v.contains('@') {
                        Some((owner, repo, Seq::empty(), Some(v)))
                    } else {
                        None
                    }
                } else {
                    None
                }
            }
        }
    }
}

/// The repository name without a `.git` suffix.
pub open spec fn spec_strip_git_suffix(repo: Seq<char>) -> Seq<char> {
    if has_suffix(repo, ".git"@) {
        repo.take(repo.len() - ".git"@.len())
    } else {
        repo
    }
}

/// The checks on the parts of a GitHub target, and the target they make.
pub open spec fn spec_github_build(
    owner: Seq<char>,
    repo: Seq<char>,
    path: Seq<char>,
    version: Option<Seq<char>>,
) -> Result<GitTargetView, VdmError> {
    let version = match version {
        Some(v) => v,
        None => "HEAD"@,
    };
    if has_suffix(path, seq!['@']) {
        Err(VdmError::EmptyGitHubVersion)
    } else if owner.len() == 0 {
        Err(VdmError::EmptyRepositoryOwner)
    } else if repo.len() == 0 {
        Err(VdmError::EmptyRepositoryName)
    } else if !(component_is_normal(owner) && component_is_normal(repo)) {
        Err(VdmError::UnsafeRepositoryComponent)
    } else {
        match spec_normalize_repository_path(path) {
            Err(e) => Err(e),
            Ok(p) => match spec_validate_path_and_version(p, version) {
                Some(e) => Err(e),
                None => {
                    let name = spec_strip_git_suffix(repo);
                    if name.len() == 0 || name == dot() || name == dot_dot() {
                        Err(VdmError::InvalidGitHubRepository)
                    } else if spec_glob_rejected(p) {
                        Err(error_kind(VdmError::InvalidGlob(arbitrary())))
                    } else {
                        Ok(spec_new_github(owner, name, p, version))
                    }
                },
            },
        }
    }
}

/// Building the target is free of the panic in `git2`.
pub open spec fn spec_github_build_safe(
    owner: Seq<char>,
    repo: Seq<char>,
    path: Seq<char>,
    version: Option<Seq<char>>,
) -> bool {
    let version = match version {
        Some(v) => v,
        None => "HEAD"@,
    };
    !has_suffix(path, seq!['@']) && component_is_normal(owner) && component_is_normal(repo) ==> match spec_normalize_repository_path(path) {
        Err(_) => true,
        Ok(p) => spec_validate_safe(p, version),
    }
}

/// What the GitHub source makes of an input: `Ok(None)` when it is not a GitHub target.
pub open spec fn spec_github_parse(input: Seq<char>) -> Result<Option<GitTargetView>, VdmError> {
    match spec_github_input(input) {
        Err(e) => Err(error_kind(e)),
        Ok(None) => Ok(None),
        Ok(Some(source)) => match spec_github_grammar(source) {
            None => Err(error_kind(VdmError::InvalidGitHubTarget(arbitrary()))),
            Some((owner, repo, path, version)) => match spec_github_build(owner, repo, path, version) {
                Ok(t) => Ok(Some(t)),
                Err(e) => Err(error_kind(e)),
            },
        },
    }
}

/// Parsing `input` as a GitHub target is free of the panic in `git2`.
pub open spec fn spec_github_parse_safe(input: Seq<char>) -> bool {
    match spec_github_input(input) {
        Ok(Some(source)) => match spec_github_grammar(source) {
            Some((owner, repo, path, version)) => spec_github_build_safe(owner, repo, path, version),
            None => true,
        },
        _ => true,
    }
}

/// The executable form of [`GitHubPrefix`].
#[derive(Debug)]
pub enum GitHubPrefixExec {
    NotGitHub,
    Direct(Vec<char>),
    NeedsHost { probe: Vec<char>, source: Vec<char> },
}

impl View for GitHubPrefixExec {
    type V = GitHubPrefix;

    open spec fn view(&self) -> GitHubPrefix {
        match self {
            GitHubPrefixExec::NotGitHub => GitHubPrefix::NotGitHub,
            GitHubPrefixExec::Direct(s) => GitHubPrefix::Direct(s@),
            GitHubPrefixExec::NeedsHost { probe, source } => GitHubPrefix::NeedsHost {
                probe: probe@,
                source: source@,
            },
        }
    }
}

fn literal(s: &str) -> (r: Vec<char>)
    ensures
        r@ == s@,
{
    chars_of(s)
}

/// The part of `s` after a literal prefix `p`, when `s` begins with it.
fn after_prefix(s: &[char], p: &str) -> (r: Option<Vec<char>>)
    ensures
        match r {
            Some(v) => has_prefix(s@, p@) && v@ == s@.skip(p@.len() as int),
            None => !has_prefix(s@, p@),
        },
{
    let pc = literal(p);
    if starts_with(s, pc.as_slice()) {
        let v = slice_chars(s, pc.len(), s.len());
        assert(v@ =~= s@.skip(p@.len() as int));
        Some(v)
    } else {
        None
    }
}

fn component_end_exec(s: &[char], i: usize) -> (r: usize)
    requires
        i <= s@.len(),
    ensures
        r == component_end(s@, i as int),
        i <= r <= s@.len(),
{
    let mut k = i;
    while k < s.len() && s[k] != '/' && s[k] != '@' && s[k] != ':'
        invariant
            i <= k <= s@.len(),
            component_end(s@, i as int) == component_end(s@, k as int),
        decreases s@.len() - k,
    {
        k += 1;
    }
    k
}

proof fn lemma_rfind_bounds(s: Seq<char>, c: char, end: int)
    ensures
        crate::text::rfind_char_before(s, c, end) matches Some(k) ==> 0 <= k < end <= s.len(),
    decreases end,
{
    if 0 < end <= s.len() && s[end - 1] != c {
        lemma_rfind_bounds(s, c, end - 1);
    }
}

proof fn lemma_find_seq_bounds(s: Seq<char>, p: Seq<char>, start: int)
    ensures
        crate::text::find_seq_from(s, p, start) matches Some(i) ==> start <= i && i + p.len() <= s.len(),
    decreases s.len() + 1 - start,
{
    if !(start < 0 || start + p.len() > s.len()) && !crate::text::occurs_at(s, p, start) {
        lemma_find_seq_bounds(s, p, start + 1);
    }
}

impl VdmGithubSource {
    /// Recognizes the forms of a GitHub target.
    pub fn github_prefix(given: &[char]) -> (r: GitHubPrefixExec)
        ensures
            r@ == spec_github_prefix(given@),
    {
        let input = if VdmGitSource::is_explicit(given) {
            slice_chars(given, literal("git:").len(), given.len())
        } else {
            slice_chars(given, 0, given.len())
        };
        assert(input@ =~= spec_strip_explicit_git(given@));
        if let Some(v) = after_prefix(input.as_slice(), "gh:") {
            return GitHubPrefixExec::Direct(v);
        }
        if let Some(v) = after_prefix(input.as_slice(), "github.com/") {
            return GitHubPrefixExec::Direct(v);
        }
        if let Some(v) = after_prefix(input.as_slice(), "git@github.com:") {
            return GitHubPrefixExec::Direct(v);
        }
        if let Some(v) = after_prefix(input.as_slice(), "git@github.com/") {
            return GitHubPrefixExec::Direct(v);
        }
        let sep = vec![':', '/', '/'];
        assert(sep@ =~= scheme_sep());
        let i = match find_seq_exec(input.as_slice(), sep.as_slice()) {
            None => return GitHubPrefixExec::NotGitHub,
            Some(i) => i,
        };
        proof {
            lemma_find_seq_bounds(input@, scheme_sep(), 0);
        }
        let n = input.len();
        assert(i + 3 <= n);
        let scheme = slice_chars(input.as_slice(), 0, i);
        assert(scheme@ =~= input@.take(i as int));
        if !(eq_chars(scheme.as_slice(), literal("https").as_slice()) || eq_chars(
            scheme.as_slice(),
            literal("http").as_slice(),
        ) || eq_chars(scheme.as_slice(), literal("ssh").as_slice()) || eq_chars(
            scheme.as_slice(),
            literal("git").as_slice(),
        )) {
            return GitHubPrefixExec::NotGitHub;
        }
        let rest = slice_chars(input.as_slice(), i + 3, n);
        assert(rest@ =~= input@.skip(i + 3));
        let j = match find_char_exec(rest.as_slice(), '/') {
            None => return GitHubPrefixExec::NotGitHub,
            Some(j) => j,
        };
        proof {
            lemma_find_char_from_bounds(rest@, '/', 0);
        }
        let mut probe = scheme.clone();
        push_all(&mut probe, sep.as_slice());
        push_all(&mut probe, slice_chars(rest.as_slice(), 0, j).as_slice());
        probe.push('/');
        assert(probe@ =~= scheme@ + scheme_sep() + rest@.take(j as int) + seq!['/']);
        let source = slice_chars(rest.as_slice(), j + 1, rest.len());
        assert(source@ =~= rest@.skip(j + 1));
        GitHubPrefixExec::NeedsHost { probe, source }
    }

    /// `gh:` and the source, whose trailing `/` go when it has no path separator.
    pub fn canonical(source: &[char]) -> (r: Vec<char>)
        ensures
            r@ == spec_github_canonical(source@),
    {
        let mut r = literal("gh:");
        if contains_char(source, ':') {
            push_all(&mut r, source);
        } else {
            push_all(&mut r, trim_end_char_exec(source, '/').as_slice());
        }
        r
    }

    /// Whether a parsed probe URL has the host `github.com`; a refused probe
    /// is reported with the parser's error text.
    pub fn host_is_github(url: &Result<UrlParts, String>) -> (r: Result<bool, VdmError>)
        ensures
            match url {
                Ok(u) => r == spec_host_is_github(Some(u@)),
                Err(text) => r matches Err(VdmError::InvalidGitHubUrl(t)) && t@ == text@,
            },
    {
        match url {
            Err(text) => Err(VdmError::InvalidGitHubUrl(text.clone())),
            Ok(u) => match &u.host {
                Some(h) => {
                    let same = eq_chars(chars_of(h.as_str()).as_slice(), literal("github.com").as_slice());
                    Ok(same)
                },
                None => Ok(false),
            },
        }
    }

    /// The canonical `gh:` form of a GitHub target, `Ok(None)` when the input is not one.
    pub fn github_input(input: &str) -> (r: Result<Option<String>, VdmError>)
        ensures
            match r {
                Ok(Some(s)) => spec_github_input(input@) == Ok::<Option<Seq<char>>, VdmError>(Some(s@)),
                Ok(None) => spec_github_input(input@) == Ok::<Option<Seq<char>>, VdmError>(None),
                Err(e) => spec_github_input(input@) == Err::<Option<Seq<char>>, VdmError>(error_kind(e)),
            },
    {
        match Self::github_prefix(chars_of(input).as_slice()) {
            GitHubPrefixExec::NotGitHub => Ok(None),
            GitHubPrefixExec::Direct(source) => Ok(Some(string_of(Self::canonical(source.as_slice()).as_slice()))),
            GitHubPrefixExec::NeedsHost { probe, source } => {
                let url = parse_url(string_of(probe.as_slice()).as_str());
                match Self::host_is_github(&url) {
                    Err(e) => Err(e),
                    Ok(false) => Ok(None),
                    Ok(true) => Ok(Some(string_of(Self::canonical(source.as_slice()).as_slice()))),
                }
            },
        }
    }

    /// Splits `path[@version]` after the `:` of a GitHub target.
    pub fn split_path_version(tail: &[char]) -> (r: (Vec<char>, Option<Vec<char>>))
        ensures
            spec_split_path_version(tail@) == (r.0@, opt_chars(r.1)),
    {
        proof {
            lemma_rfind_bounds(tail@, '@', tail@.len() as int);
        }
        let n = tail.len();
        match rfind_char_exec(tail, '@') {
            Some(k) => if k + 1 < n {
                let a = slice_chars(tail, 0, k);
                let b = slice_chars(tail, k + 1, n);
                assert(a@ =~= tail@.take(k as int));
                assert(b@ =~= tail@.skip(k + 1));
                (a, Some(b))
            } else {
                (slice_chars(tail, 0, n), None)
            },
            None => (slice_chars(tail, 0, n), None),
        }
    }

    /// Reads `gh:owner/repo[:path][@version]` into its parts.
    pub fn parse(input: &str) -> (r: Option<(String, String, String, Option<String>)>)
        ensures
            match r {
                Some((o, n, p, v)) => spec_github_grammar(input@) == Some((o@, n@, p@, opt_string(v))),
                None => spec_github_grammar(input@) is None,
            },
    {
        let chars = chars_of(input);
        let s = match after_prefix(chars.as_slice(), "gh:") {
            None => return None,
            Some(s) => s,
        };
        let a = component_end_exec(s.as_slice(), 0);
        if a == 0 || a >= s.len() || s[a] != '/' {
            return None;
        }
        let b = component_end_exec(s.as_slice(), a + 1);
        if b == a + 1 {
            return None;
        }
        let owner = slice_chars(s.as_slice(), 0, a);
        let repo = slice_chars(s.as_slice(), a + 1, b);
        if b == s.len() {
            return Some((string_of(owner.as_slice()), string_of(repo.as_slice()), string_of(&[]), None));
        }
        if s[b] == ':' {
            let tail = slice_chars(s.as_slice(), b + 1, s.len());
            assert(tail@ =~= s@.skip(b + 1));
            let (path, version) = Self::split_path_version(tail.as_slice());
            let v = match version {
                Some(v) => Some(string_of(v.as_slice())),
                None => None,
            };
            return Some((string_of(owner.as_slice()), string_of(repo.as_slice()), string_of(path.as_slice()), v));
        }
        if s[b] == '@' {
            let v = slice_chars(s.as_slice(), b + 1, s.len());
            assert(v@ =~= s@.skip(b + 1));
            if v.len() > 0 && !contains_char(v.as_slice(), '@') {
                return Some((string_of(owner.as_slice()), string_of(repo.as_slice()), string_of(&[]), Some(string_of(v.as_slice()))));
            }
            return None;
        }
        None
    }

    /// Checks the parts of a GitHub target and builds it.
    pub fn build(owner: &str, repo: &str, path: &str, version: &Option<String>) -> (r: Result<VdmGitTarget, VdmError>)
        requires
            spec_github_build_safe(owner@, repo@, path@, opt_string(*version)),
        ensures
            crate::git::parse::git_target_result_view(r) == spec_github_build(owner@, repo@, path@, opt_string(*version)),
    {
        let p = chars_of(path);
        let v = match version {
            Some(v) => chars_of(v.as_str()),
            None => literal("HEAD"),
        };
        if ends_with(p.as_slice(), &['@']) {
            assert(seq!['@'] =~= [ '@' ]@);
            return Err(VdmError::EmptyGitHubVersion);
        }
        assert(!has_suffix(p@, seq!['@'])) by {
            assert(seq!['@'] =~= [ '@' ]@);
        }
        let o = chars_of(owner);
        let n = chars_of(repo);
        if o.len() == 0 {
            return Err(VdmError::EmptyRepositoryOwner);
        }
        if n.len() == 0 {
            return Err(VdmError::EmptyRepositoryName);
        }
        if !(component_is_normal_exec(o.as_slice()) && component_is_normal_exec(n.as_slice())) {
            return Err(VdmError::UnsafeRepositoryComponent);
        }
        let normalized = match normalize_repository_path(p.as_slice()) {
            Ok(q) => q,
            Err(e) => return Err(e),
        };
        let np = string_of(normalized.as_slice());
        let vs = string_of(v.as_slice());
        match VdmGitSource::validate_git_path_and_version(np.as_str(), vs.as_str()) {
            Ok(()) => {},
            Err(e) => return Err(e),
        }
        let name = if ends_with(n.as_slice(), literal(".git").as_slice()) {
            let k = n.len() - literal(".git").len();
            let m = slice_chars(n.as_slice(), 0, k);
            assert(m@ =~= n@.take(k as int));
            m
        } else {
            n
        };
        if !component_is_normal_exec(name.as_slice()) {
            return Err(VdmError::InvalidGitHubRepository);
        }
        let target = VdmGitTarget::new_github(
            string_of(o.as_slice()),
            string_of(name.as_slice()),
            VdmManifestTargetPath::new(np.as_str()),
            VdmManifestSourceVersion::new(vs.as_str()),
        );
        match target.glob() {
            Ok(_) => Ok(target),
            Err(e) => Err(e),
        }
    }

    /// Reads `input` as a GitHub target: `Ok(None)` when it is not one.
    pub fn parse_target(&self, input: &str) -> (r: Result<Option<VdmGitTarget>, VdmError>)
        requires
            spec_github_parse_safe(input@),
        ensures
            github_result_view(r) == spec_github_parse(input@),
            r matches Err(VdmError::InvalidGitHubTarget(s)) ==> spec_github_input(input@) == Ok::<Option<Seq<char>>, VdmError>(Some(s@)),
    {
        let source = match Self::github_input(input) {
            Err(e) => return Err(e),
            Ok(None) => return Ok(None),
            Ok(Some(s)) => s,
        };
        match Self::parse(source.as_str()) {
            None => Err(VdmError::InvalidGitHubTarget(source)),
            Some((owner, repo, path, version)) => match Self::build(owner.as_str(), repo.as_str(), path.as_str(), &version) {
                Ok(t) => Ok(Some(t)),
                Err(e) => Err(e),
            },
        }
    }
}

/// A GitHub result read through its target's view, its error up to the texts it holds.
pub open spec fn github_result_view(r: Result<Option<VdmGitTarget>, VdmError>) -> Result<Option<GitTargetView>, VdmError> {
    match r {
        Ok(Some(t)) => Ok(Some(t@)),
        Ok(None) => Ok(None),
        Err(e) => Err(error_kind(e)),
    }
}

/// The characters of an optional character vector.
pub open spec fn opt_chars(v: Option<Vec<char>>) -> Option<Seq<char>> {
    match v {
        Some(v) => Some(v@),
        None => None,
    }
}

/// The characters of an optional string.
pub open spec fn opt_string(v: Option<String>) -> Option<Seq<char>> {
    match v {
        Some(v) => Some(v@),
        None => None,
    }
}

proof fn lemma_component_end_chars(s: Seq<char>, i: int)
    requires
        0 <= i <= s.len(),
    ensures
        i <= component_end(s, i) <= s.len(),
        forall|k: int| i <= k < component_end(s, i) ==> is_component_char(#[trigger] s[k]),
        component_end(s, i) < s.len() ==> !is_component_char(s[component_end(s, i)]),
    decreases s.len() - i,
{
    if i < s.len() && is_component_char(s[i]) {
        lemma_component_end_chars(s, i + 1);
    }
}

proof fn lemma_component_end_at(s: Seq<char>, i: int, j: int)
    requires
        0 <= i <= j <= s.len(),
        forall|k: int| i <= k < j ==> is_component_char(#[trigger] s[k]),
        j == s.len() || !is_component_char(s[j]),
    ensures
        component_end(s, i) == j,
    decreases j - i,
{
    if i < j {
        lemma_component_end_at(s, i + 1, j);
    }
}

proof fn lemma_rfind_before_at(s: Seq<char>, c: char, k: int, end: int)
    requires
        0 <= k < end <= s.len(),
        s[k] == c,
        forall|j: int| k < j < end ==> s[j] != c,
    ensures
        crate::text::rfind_char_before(s, c, end) == Some(k),
    decreases end,
{
    if end - 1 > k {
        lemma_rfind_before_at(s, c, k, end - 1);
    }
}

/// The parts a GitHub target was built from: owner, repository name, path
/// and version, with what the reading of the input checked of them.
spec fn github_parts_hold(owner: Seq<char>, name: Seq<char>, p: Seq<char>, v: Seq<char>) -> bool {
    &&& owner.len() > 0
    &&& name.len() > 0
    &&& forall|k: int| 0 <= k < owner.len() ==> is_component_char(#[trigger] owner[k])
    &&& forall|k: int| 0 <= k < name.len() ==> is_component_char(#[trigger] name[k])
    &&& component_is_normal(owner)
    &&& name != dot() && name != dot_dot()
    &&& spec_normalize_repository_path(p) == Ok::<Seq<char>, VdmError>(p)
    &&& spec_validate_path_and_version(p, v) is None
    &&& !spec_glob_rejected(p)
    &&& v.len() > 0
}

proof fn lemma_github_parts(input: Seq<char>, t: GitTargetView) -> (r: (Seq<char>, Seq<char>, Seq<char>, Seq<char>))
    requires
        spec_github_parse(input) == Ok::<Option<GitTargetView>, VdmError>(Some(t)),
    ensures
        t == spec_new_github(r.0, r.1, r.2, r.3),
        github_parts_hold(r.0, r.1, r.2, r.3),
        t.repository == (GitRepositoryView::GitHub { owner: r.0, repo: r.1 }),
{
    reveal_strlit("gh:");
    reveal_strlit(".git");
    let source = spec_github_input(input)->Ok_0->Some_0;
    let (owner, repo, path, ver) = spec_github_grammar(source)->Some_0;
    let v = match ver {
        Some(x) => x,
        None => "HEAD"@,
    };
    let p = spec_normalize_repository_path(path)->Ok_0;
    let name = spec_strip_git_suffix(repo);
    let s = source.skip(3);
    let a = component_end(s, 0);
    lemma_component_end_chars(s, 0);
    lemma_component_end_chars(s, a + 1);
    let b = component_end(s, a + 1);
    assert forall|k: int| 0 <= k < owner.len() implies is_component_char(#[trigger] owner[k]) by {
        assert(owner[k] == s[k]);
    }
    assert forall|k: int| 0 <= k < name.len() implies is_component_char(#[trigger] name[k]) by {
        assert(name[k] == repo[k]);
        assert(repo[k] == s[a + 1 + k]);
    }
    lemma_normalize_idempotent(path);
    (owner, name, p, v)
}

proof fn lemma_github_key_input(owner: Seq<char>, name: Seq<char>, p: Seq<char>, v: Seq<char>)
    requires
        github_parts_hold(owner, name, p, v),
        !has_suffix(v, seq!['/']),
    ensures
        spec_github_input(spec_new_github(owner, name, p, v).key + seq!['@'] + v) == Ok::<Option<Seq<char>>, VdmError>(
            Some(spec_new_github(owner, name, p, v).key + seq!['@'] + v),
        ),
{
    reveal_strlit("gh:");
    reveal_strlit("git:");
    let text = spec_new_github(owner, name, p, v).key + seq!['@'] + v;
    assert(!crate::git::parse::spec_is_explicit_git(text)) by {
        assert(text[1] == 'h');
        assert("git:"@[1] == 'i');
        if has_prefix(text, "git:"@) {
            assert(text.take(4)[1] == "git:"@[1]);
        }
    }
    assert(text.take(3) =~= "gh:"@);
    let src = text.skip(3);
    let tail = crate::git::target::path_suffix(':', p) + seq!['@'] + v;
    assert(src =~= owner + seq!['/'] + name + tail);
    if p.len() > 0 {
        assert(src[owner.len() as int + 1 + name.len()] == ':');
        assert(src.contains(':'));
    } else if !src.contains(':') {
        assert(src.last() == v.last());
        assert(v.skip(v.len() - 1) =~= seq![v.last()]);
        if v.last() == '/' {
            assert(v.skip(v.len() - 1) =~= seq!['/']);
        }
        assert(trim_end_char(src, '/') == src);
    }
    assert(spec_github_canonical(src) =~= text);
}

proof fn lemma_github_key_grammar(owner: Seq<char>, name: Seq<char>, p: Seq<char>, v: Seq<char>)
    requires
        github_parts_hold(owner, name, p, v),
        !v.contains('@'),
    ensures
        spec_github_grammar(spec_new_github(owner, name, p, v).key + seq!['@'] + v) == Some((owner, name, p, Some(v))),
{
    reveal_strlit("gh:");
    let text = spec_new_github(owner, name, p, v).key + seq!['@'] + v;
    assert(text.take(3) =~= "gh:"@);
    let s2 = text.skip(3);
    let tail = crate::git::target::path_suffix(':', p) + seq!['@'] + v;
    assert(s2 =~= owner + seq!['/'] + name + tail);
    let a2 = owner.len() as int;
    let b2 = a2 + 1 + name.len();
    assert(s2[a2] == '/');
    assert forall|k: int| 0 <= k < a2 implies is_component_char(#[trigger] s2[k]) by {
        assert(s2[k] == owner[k]);
    }
    lemma_component_end_at(s2, 0, a2);
    assert forall|k: int| a2 + 1 <= k < b2 implies is_component_char(#[trigger] s2[k]) by {
        assert(s2[k] == name[k - a2 - 1]);
    }
    assert(!is_component_char(s2[b2]));
    lemma_component_end_at(s2, a2 + 1, b2);
    assert(s2.subrange(0, a2) =~= owner);
    assert(s2.subrange(a2 + 1, b2) =~= name);
    if p.len() > 0 {
        let rest = s2.skip(b2 + 1);
        assert(rest =~= p + seq!['@'] + v);
        assert forall|j: int| p.len() < j < rest.len() implies rest[j] != '@' by {
            assert(rest[j] == v[j - p.len() - 1]);
        }
        lemma_rfind_before_at(rest, '@', p.len() as int, rest.len() as int);
        assert(rest.take(p.len() as int) =~= p);
        assert(rest.skip(p.len() as int + 1) =~= v);
    } else {
        assert(s2.skip(b2 + 1) =~= v);
    }
}

/// A GitHub target read back from its key followed by `@` and its version is
/// the same target.  This holds unless the version holds `@` or ends with `/`,
/// the path ends with `@`, or the repository name still ends with `.git`: the
/// key and version of such a target read as another split or another name.
pub proof fn lemma_github_key_round_trip(input: Seq<char>, t: GitTargetView)
    requires
        spec_github_parse(input) == Ok::<Option<GitTargetView>, VdmError>(Some(t)),
        !has_suffix(t.path, seq!['@']),
        !t.version.contains('@'),
        !has_suffix(t.version, seq!['/']),
        t.repository matches GitRepositoryView::GitHub { repo, .. } && !has_suffix(repo, ".git"@),
    ensures
        spec_github_parse(t.key + seq!['@'] + t.version) == Ok::<Option<GitTargetView>, VdmError>(Some(t)),
{
    let (owner, name, p, v) = lemma_github_parts(input, t);
    lemma_github_key_input(owner, name, p, v);
    lemma_github_key_grammar(owner, name, p, v);
    assert(spec_strip_git_suffix(name) == name);
    assert(spec_github_build(owner, name, p, Some(v)) == Ok::<GitTargetView, VdmError>(t));
}

} // verus!
