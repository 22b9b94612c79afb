//! Reading a target from user input or from a manifest entry, trying the
//! GitHub, Git and HTTP sources in that order.
use vstd::prelude::*;

use crate::error::{error_kind, VdmError};
use crate::git::parse::{
    scheme_sep, spec_git_locate, spec_git_parse, spec_git_parse_safe, spec_split_repository_path, GitLocate, VdmGitSource,
};
use crate::git::target::{GitRepositoryView, GitTargetView, VdmGitTarget};
use crate::github::parse::{
    lemma_github_key_round_trip, spec_github_canonical, spec_github_grammar, spec_github_input, spec_github_parse,
    spec_github_parse_safe, spec_github_prefix, GitHubPrefix, VdmGithubSource,
};
use crate::http::parse::{
    lemma_http_key_round_trip, spec_http_normalize_url, spec_http_parse, spec_is_http_url_text, VdmHttpSource,
};
use crate::http::target::{HttpTargetView, VdmHttpTarget};
use crate::manifest::target::{VdmManifestSourceVersion, VdmManifestTargetUrl};
use crate::target::VdmTarget;
use crate::text::{chars_of, concat2, eq_chars, string_of, trim_end_char, trim_end_char_exec};
use crate::url_parts::UrlView;

verus! {

/// A target of any source.
#[derive(Debug)]
pub enum VdmAnyTarget {
    Git(VdmGitTarget),
    Http(VdmHttpTarget),
}

/// The mathematical form of a [`VdmAnyTarget`].
pub enum AnyTargetView {
    Git(GitTargetView),
    Http(HttpTargetView),
}

impl View for VdmAnyTarget {
    type V = AnyTargetView;

    open spec fn view(&self) -> AnyTargetView {
        match self {
            VdmAnyTarget::Git(t) => AnyTargetView::Git(t@),
            VdmAnyTarget::Http(t) => AnyTargetView::Http(t@),
        }
    }
}

/// The key of a target.
pub open spec fn any_key(t: AnyTargetView) -> Seq<char> {
    match t {
        AnyTargetView::Git(g) => g.key,
        AnyTargetView::Http(h) => h.key,
    }
}

/// The version of a target.
pub open spec fn any_version(t: AnyTargetView) -> Seq<char> {
    match t {
        AnyTargetView::Git(g) => g.version,
        AnyTargetView::Http(h) => h.version,
    }
}

impl VdmTarget for VdmAnyTarget {
    open spec fn key_view(&self) -> Seq<char> {
        match self {
            VdmAnyTarget::Git(t) => t.key_view(),
            VdmAnyTarget::Http(t) => t.key_view(),
        }
    }

    open spec fn version_view(&self) -> Seq<char> {
        match self {
            VdmAnyTarget::Git(t) => t.version_view(),
            VdmAnyTarget::Http(t) => t.version_view(),
        }
    }

    open spec fn source_url_view(&self) -> Seq<char> {
        match self {
            VdmAnyTarget::Git(t) => t.source_url_view(),
            VdmAnyTarget::Http(t) => t.source_url_view(),
        }
    }

    open spec fn vendor_path_view(&self) -> Seq<char> {
        match self {
            VdmAnyTarget::Git(t) => t.vendor_path_view(),
            VdmAnyTarget::Http(t) => t.vendor_path_view(),
        }
    }

    fn key(&self) -> (r: &VdmManifestTargetUrl) {
        match self {
            VdmAnyTarget::Git(t) => t.key(),
            VdmAnyTarget::Http(t) => t.key(),
        }
    }

    fn version(&self) -> (r: &VdmManifestSourceVersion) {
        match self {
            VdmAnyTarget::Git(t) => t.version(),
            VdmAnyTarget::Http(t) => t.version(),
        }
    }

    fn source_url(&self) -> (r: &str) {
        match self {
            VdmAnyTarget::Git(t) => t.source_url(),
            VdmAnyTarget::Http(t) => t.source_url(),
        }
    }

    fn vendor_path(&self) -> (r: String) {
        match self {
            VdmAnyTarget::Git(t) => t.vendor_path(),
            VdmAnyTarget::Http(t) => t.vendor_path(),
        }
    }
}

/// Reading user input as a target.
#[derive(Debug)]
pub struct VdmSourceInput;

/// The target the sources read from `input`: the first of GitHub, Git and HTTP
/// that recognizes it decides, and a refusal by an earlier source is final.
pub open spec fn spec_parse_target(input: Seq<char>) -> Result<AnyTargetView, VdmError> {
    match spec_github_parse(input) {
        Err(e) => Err(error_kind(e)),
        Ok(Some(t)) => Ok(AnyTargetView::Git(t)),
        Ok(None) => match spec_git_parse(input) {
            Err(e) => Err(error_kind(e)),
            Ok(Some(t)) => Ok(AnyTargetView::Git(t)),
            Ok(None) => match spec_http_parse(input) {
                Err(e) => Err(error_kind(e)),
                Ok(Some(t)) => Ok(AnyTargetView::Http(t)),
                Ok(None) => Err(error_kind(VdmError::UnsupportedSource(arbitrary()))),
            },
        },
    }
}

/// Reading `input` never reaches the panic of `git2` on a NUL character.
pub open spec fn spec_parse_target_safe(input: Seq<char>) -> bool {
    &&& spec_github_parse_safe(input)
    &&& spec_github_parse(input) == Ok::<Option<GitTargetView>, VdmError>(None) ==> spec_git_parse_safe(input)
}

/// The input a manifest entry stands for: `key@version`.
pub open spec fn spec_manifest_input(key: Seq<char>, version: Seq<char>) -> Seq<char> {
    key + seq!['@'] + version
}

/// The target of a manifest entry: its key read with its version, which the
/// target must carry unchanged.
pub open spec fn spec_parse_manifest_target(key: Seq<char>, version: Seq<char>) -> Result<AnyTargetView, VdmError> {
    match spec_parse_target(spec_manifest_input(key, version)) {
        Err(e) => Err(e),
        Ok(t) => if any_version(t) == version {
            Ok(t)
        } else {
            Err(error_kind(VdmError::ManifestVersionMismatch(arbitrary(), arbitrary())))
        },
    }
}

/// The canonical key of a grouped manifest source: the key of the GitHub or
/// Git target it reads as, or `http:` and the URL without trailing `/`.
pub open spec fn spec_normalize_base(input: Seq<char>) -> Result<Seq<char>, VdmError> {
    match spec_github_parse(input) {
        Err(e) => Err(error_kind(e)),
        Ok(Some(t)) => Ok(t.key),
        Ok(None) => match spec_git_parse(input) {
            Err(e) => Err(error_kind(e)),
            Ok(Some(t)) => Ok(t.key),
            Ok(None) => match spec_http_normalize_url(input) {
                Err(e) => Err(error_kind(e)),
                Ok(None) => Err(VdmError::UnsupportedManifestSource),
                Ok(Some(u)) => Ok("http:"@ + trim_end_char(u.serialization, '/')),
            },
        },
    }
}

/// No character of `s` is NUL.
pub open spec fn no_nul(s: Seq<char>) -> bool {
    !s.contains('\0')
}

proof fn lemma_no_nul_skip(s: Seq<char>, k: int)
    requires
        no_nul(s),
        0 <= k <= s.len(),
    ensures
        no_nul(s.skip(k)),
{
    if s.skip(k).contains('\0') {
        let j = choose|j: int| 0 <= j < s.skip(k).len() && s.skip(k)[j] == '\0';
        assert(s[k + j] == '\0');
    }
}

proof fn lemma_no_nul_take(s: Seq<char>, k: int)
    requires
        no_nul(s),
        0 <= k <= s.len(),
    ensures
        no_nul(s.take(k)),
{
    if s.take(k).contains('\0') {
        let j = choose|j: int| 0 <= j < s.take(k).len() && s.take(k)[j] == '\0';
        assert(s[j] == '\0');
    }
}

proof fn lemma_no_nul_trim_end(s: Seq<char>, c: char)
    requires
        no_nul(s),
    ensures
        no_nul(trim_end_char(s, c)),
    decreases s.len(),
{
    if s.len() > 0 && s.last() == c {
        lemma_no_nul_take(s, s.len() - 1);
        assert(s.drop_last() =~= s.take(s.len() - 1));
        lemma_no_nul_trim_end(s.drop_last(), c);
    }
}

proof fn lemma_no_nul_head()
    ensures
        no_nul("HEAD"@),
{
    reveal_strlit("HEAD");
}

proof fn lemma_no_nul_strip_git(s: Seq<char>)
    requires
        no_nul(s),
    ensures
        no_nul(crate::git::parse::spec_strip_explicit_git(s)),
{
    reveal_strlit("git:");
    if crate::git::parse::spec_is_explicit_git(s) {
        lemma_no_nul_skip(s, 4);
    }
}

pub proof fn lemma_github_safe(input: Seq<char>)
    requires
        no_nul(input),
    ensures
        spec_github_parse_safe(input),
{
    lemma_no_nul_head();
    let stripped = crate::git::parse::spec_strip_explicit_git(input);
    lemma_no_nul_strip_git(input);
    reveal_strlit("gh:");
    reveal_strlit("github.com/");
    reveal_strlit("git@github.com:");
    reveal_strlit("git@github.com/");
    let src = match spec_github_prefix(input) {
        GitHubPrefix::Direct(src) => src,
        GitHubPrefix::NeedsHost { probe, source } => source,
        GitHubPrefix::NotGitHub => stripped,
    };
    assert(no_nul(src)) by {
        match spec_github_prefix(input) {
            GitHubPrefix::Direct(d) => {
                if has_prefix_lit(stripped, "gh:"@) {
                    lemma_no_nul_skip(stripped, 3);
                } else if has_prefix_lit(stripped, "github.com/"@) {
                    lemma_no_nul_skip(stripped, 11);
                } else if has_prefix_lit(stripped, "git@github.com:"@) {
                    lemma_no_nul_skip(stripped, 15);
                } else {
                    lemma_no_nul_skip(stripped, 15);
                }
            },
            GitHubPrefix::NeedsHost { probe, source } => {
                let i = crate::text::find_seq(stripped, crate::git::parse::scheme_sep())->0;
                crate::text::lemma_find_seq_bounds(stripped, crate::git::parse::scheme_sep());
                let rest = stripped.skip(i + 3);
                lemma_no_nul_skip(stripped, i + 3);
                let j = crate::text::find_char(rest, '/')->0;
                crate::text::lemma_find_char_from_bounds(rest, '/', 0);
                lemma_no_nul_skip(rest, j + 1);
            },
            GitHubPrefix::NotGitHub => {},
        }
    }
    match spec_github_input(input) {
        Ok(Some(source)) => {
            let body = if src.contains(':') { src } else { trim_end_char(src, '/') };
            lemma_no_nul_trim_end(src, '/');
            assert(source == spec_github_canonical(src));
            assert(source.skip(3) =~= body);
            match spec_github_grammar(source) {
                Some((owner, repo, path, version)) => {
                    let s = source.skip(3);
                    match version {
                        Some(v) => {
                            let a = crate::github::parse::component_end(s, 0);
                            lemma_component_end_bounds(s, 0);
                            let b = crate::github::parse::component_end(s, a + 1);
                            lemma_component_end_bounds(s, a + 1);
                            if s[b] == ':' {
                                let tail = s.skip(b + 1);
                                lemma_no_nul_skip(s, b + 1);
                                let k = crate::text::rfind_char(tail, '@')->0;
                                crate::text::lemma_rfind_char_bounds(tail, '@');
                                lemma_no_nul_skip(tail, k + 1);
                            } else {
                                lemma_no_nul_skip(s, b + 1);
                            }
                            assert(no_nul(v));
                        },
                        None => {},
                    }
                },
                None => {},
            }
        },
        _ => {},
    }
}

proof fn lemma_component_end_bounds(s: Seq<char>, i: int)
    requires
        0 <= i <= s.len(),
    ensures
        i <= crate::github::parse::component_end(s, i) <= s.len(),
    decreases s.len() - i,
{
    if i < s.len() && crate::github::parse::is_component_char(s[i]) {
        lemma_component_end_bounds(s, i + 1);
    }
}

spec fn has_prefix_lit(s: Seq<char>, p: Seq<char>) -> bool {
    crate::text::has_prefix(s, p)
}

/// On an input without NUL, reading a target never reaches the panic in `git2`.
pub proof fn lemma_no_nul_parse_safe(input: Seq<char>)
    requires
        no_nul(input),
    ensures
        spec_parse_target_safe(input),
{
    lemma_github_safe(input);
    lemma_git_safe(input);
}

pub proof fn lemma_git_safe(input: Seq<char>)
    requires
        no_nul(input),
    ensures
        spec_git_parse_safe(input),
{
    lemma_no_nul_head();
    lemma_no_nul_strip_git(input);
    let stripped = crate::git::parse::spec_strip_explicit_git(input);
    match spec_git_locate(input) {
        GitLocate::Found { repository, path, version } => {
            assert(no_nul(version)) by {
                match spec_split_repository_path(stripped) {
                    Some((repo, rest)) => {
                        let i = crate::text::find_seq(stripped, scheme_sep())->0;
                        crate::text::lemma_find_seq_bounds(stripped, scheme_sep());
                        let r2 = stripped.skip(i + 3);
                        let j = crate::text::find_char(r2, '/')->0;
                        crate::text::lemma_find_char_from_bounds(r2, '/', 0);
                        let start = i + 3 + j;
                        let tail = stripped.skip(start);
                        let qs = crate::git::parse::query_start_from(tail, 0);
                        crate::git::parse::lemma_query_start_bounds(tail, 0);
                        let p = tail.take(qs);
                        let k = crate::text::find_char(p, ':')->0;
                        crate::text::lemma_find_char_from_bounds(p, ':', 0);
                        lemma_no_nul_skip(stripped, start + k + 1);
                        assert(rest == stripped.skip(start + k + 1));
                        match crate::text::rfind_char(rest, '@') {
                            Some(m) => {
                                crate::text::lemma_rfind_char_bounds(rest, '@');
                                if m > 0 {
                                    lemma_no_nul_skip(rest, m + 1);
                                }
                            },
                            None => {},
                        }
                    },
                    None => {
                        match crate::text::rfind_char(stripped, '@') {
                            Some(m) => {
                                crate::text::lemma_rfind_char_bounds(stripped, '@');
                                lemma_no_nul_skip(stripped, m + 1);
                            },
                            None => {},
                        }
                    },
                }
            }
        },
        _ => {},
    }
}

/// The view of an optional target result.
pub open spec fn opt_any_result_view(r: Result<Option<VdmAnyTarget>, VdmError>) -> Result<Option<AnyTargetView>, VdmError> {
    match r {
        Ok(Some(t)) => Ok(Some(t@)),
        Ok(None) => Ok(None),
        Err(e) => Err(error_kind(e)),
    }
}

/// A source of vendored files: it recognizes the targets written in its form.
pub trait VdmSource {
    /// What the source makes of `input`: `Ok(None)` when the input is not in its form.
    spec fn spec_parse(&self, input: Seq<char>) -> Result<Option<AnyTargetView>, VdmError>;

    /// Reads `input` as a target of this source.
    fn parse(&self, input: &str) -> (r: Result<Option<VdmAnyTarget>, VdmError>)
        requires
            no_nul(input@),
        ensures
            opt_any_result_view(r) == self.spec_parse(input@),
    ;
}

/// A Git result read as a result of any source.
pub open spec fn git_as_any(r: Result<Option<GitTargetView>, VdmError>) -> Result<Option<AnyTargetView>, VdmError> {
    match r {
        Ok(Some(t)) => Ok(Some(AnyTargetView::Git(t))),
        Ok(None) => Ok(None),
        Err(e) => Err(error_kind(e)),
    }
}

/// An HTTP result read as a result of any source.
pub open spec fn http_as_any(r: Result<Option<HttpTargetView>, VdmError>) -> Result<Option<AnyTargetView>, VdmError> {
    match r {
        Ok(Some(t)) => Ok(Some(AnyTargetView::Http(t))),
        Ok(None) => Ok(None),
        Err(e) => Err(error_kind(e)),
    }
}

impl VdmSource for VdmGithubSource {
    open spec fn spec_parse(&self, input: Seq<char>) -> Result<Option<AnyTargetView>, VdmError> {
        git_as_any(spec_github_parse(input))
    }

    fn parse(&self, input: &str) -> (r: Result<Option<VdmAnyTarget>, VdmError>) {
        proof {
            lemma_github_safe(input@);
        }
        match self.parse_target(input) {
            Ok(Some(t)) => Ok(Some(VdmAnyTarget::Git(t))),
            Ok(None) => Ok(None),
            Err(e) => Err(e),
        }
    }
}

impl VdmSource for VdmGitSource {
    open spec fn spec_parse(&self, input: Seq<char>) -> Result<Option<AnyTargetView>, VdmError> {
        git_as_any(spec_git_parse(input))
    }

    fn parse(&self, input: &str) -> (r: Result<Option<VdmAnyTarget>, VdmError>) {
        proof {
            lemma_git_safe(input@);
        }
        match self.parse_target(input) {
            Ok(Some(t)) => Ok(Some(VdmAnyTarget::Git(t))),
            Ok(None) => Ok(None),
            Err(e) => Err(e),
        }
    }
}

impl VdmSource for VdmHttpSource {
    open spec fn spec_parse(&self, input: Seq<char>) -> Result<Option<AnyTargetView>, VdmError> {
        http_as_any(spec_http_parse(input))
    }

    fn parse(&self, input: &str) -> (r: Result<Option<VdmAnyTarget>, VdmError>) {
        match self.parse_target(input) {
            Ok(Some(t)) => Ok(Some(VdmAnyTarget::Http(t))),
            Ok(None) => Ok(None),
            Err(e) => Err(e),
        }
    }
}

pub open spec fn any_result_view(r: Result<VdmAnyTarget, VdmError>) -> Result<AnyTargetView, VdmError> {
    match r {
        Ok(t) => Ok(t@),
        Err(e) => Err(error_kind(e)),
    }
}

impl VdmSourceInput {
    /// Reads `input` as [`VdmSourceInput::parse_target`] does. An input that
    /// holds a NUL character and that the GitHub or the Git source takes up is
    /// refused (with `None`): `git2` would panic on it.
    pub fn try_parse_target(input: &str) -> (r: Option<Result<VdmAnyTarget, VdmError>>)
        ensures
            match r {
                None => !no_nul(input@) && (spec_github_input(input@) matches Ok(Some(_))
                    || spec_git_locate(input@) is Found),
                Some(t) => any_result_view(t) == spec_parse_target(input@),
            },
            r matches Some(Err(VdmError::UnsupportedSource(s))) ==> s@ == input@,
    {
        if crate::text::contains_char(chars_of(input).as_slice(), '\0') {
            match VdmGithubSource::github_input(input) {
                Ok(Some(_)) => return None,
                _ => {},
            }
            match VdmGitSource::locate(chars_of(input).as_slice()) {
                Ok(Some(_)) => return None,
                _ => {},
            }
            assert(spec_github_parse_safe(input@));
            assert(spec_git_parse_safe(input@));
        } else {
            proof {
                lemma_no_nul_parse_safe(input@);
            }
        }
        Some(Self::parse_target(input))
    }

    /// Reads `input` as a target of the first source that recognizes it.
    pub fn parse_target(input: &str) -> (r: Result<VdmAnyTarget, VdmError>)
        requires
            spec_parse_target_safe(input@),
        ensures
            any_result_view(r) == spec_parse_target(input@),
            r matches Err(VdmError::UnsupportedSource(s)) ==> s@ == input@,
    {
        match VdmGithubSource.parse_target(input) {
            Err(e) => return Err(e),
            Ok(Some(t)) => return Ok(VdmAnyTarget::Git(t)),
            Ok(None) => {},
        }
        match VdmGitSource.parse_target(input) {
            Err(e) => return Err(e),
            Ok(Some(t)) => return Ok(VdmAnyTarget::Git(t)),
            Ok(None) => {},
        }
        match VdmHttpSource.parse_target(input) {
            Err(e) => Err(e),
            Ok(Some(t)) => Ok(VdmAnyTarget::Http(t)),
            Ok(None) => Err(VdmError::UnsupportedSource(input.to_owned())),
        }
    }

    /// Reads the target of a manifest entry.
    pub fn parse_manifest_target(key: &VdmManifestTargetUrl, version: &VdmManifestSourceVersion) -> (r: Result<
        VdmAnyTarget,
        VdmError,
    >)
        requires
            spec_parse_target_safe(spec_manifest_input(key@, version@)),
        ensures
            any_result_view(r) == spec_parse_manifest_target(key@, version@),
            r matches Err(VdmError::UnsupportedSource(s)) ==> s@ == spec_manifest_input(key@, version@),
            r matches Err(VdmError::ManifestVersionMismatch(v, k)) ==> v@ == version@ && k@ == key@,
    {
        let mut input = key.to_chars();
        input.push('@');
        let v = version.to_chars();
        crate::text::push_all(&mut input, v.as_slice());
        assert(input@ =~= spec_manifest_input(key@, version@));
        let text = string_of(input.as_slice());
        let target = match Self::parse_target(text.as_str()) {
            Err(e) => return Err(e),
            Ok(t) => t,
        };
        let tv = target.version().to_chars();
        proof {
            assert(tv@ == any_version(target@)) by {
                match target {
                    VdmAnyTarget::Git(g) => {},
                    VdmAnyTarget::Http(h) => {},
                }
            }
        }
        if !eq_chars(tv.as_slice(), v.as_slice()) {
            return Err(VdmError::ManifestVersionMismatch(version.as_str().to_owned(), key.as_str().to_owned()));
        }
        Ok(target)
    }

    /// The canonical key of a grouped manifest source.
    pub fn normalize_base(input: &str) -> (r: Result<VdmManifestTargetUrl, VdmError>)
        requires
            spec_github_parse_safe(input@),
            spec_github_parse(input@) == Ok::<Option<GitTargetView>, VdmError>(None) ==> spec_git_parse_safe(input@),
        ensures
            match r {
                Ok(k) => spec_normalize_base(input@) == Ok::<Seq<char>, VdmError>(k@),
                Err(e) => spec_normalize_base(input@) == Err::<Seq<char>, VdmError>(error_kind(e)),
            },
    {
        match VdmGithubSource.parse_target(input) {
            Err(e) => return Err(e),
            Ok(Some(t)) => return Ok(t.key().clone()),
            Ok(None) => {},
        }
        match VdmGitSource.parse_target(input) {
            Err(e) => return Err(e),
            Ok(Some(t)) => return Ok(t.key().clone()),
            Ok(None) => {},
        }
        match VdmHttpSource::normalize_url(input) {
            Err(e) => Err(e),
            Ok(None) => Err(VdmError::UnsupportedManifestSource),
            Ok(Some(u)) => {
                let s = trim_end_char_exec(chars_of(u.serialization.as_str()).as_slice(), '/');
                let key = concat2(chars_of("http:").as_slice(), s.as_slice());
                Ok(VdmManifestTargetUrl::from_chars(key.as_slice()))
            },
        }
    }
}

/// The manifest entry of a GitHub target — its key, with its version — reads
/// back as that same target, whenever the target's version holds no `@` and
/// does not end with `/`, its path does not end with `@` and its repository
/// name does not end with `.git`.
pub proof fn lemma_manifest_entry_round_trip(input: Seq<char>, t: GitTargetView)
    requires
        spec_github_parse(input) == Ok::<Option<GitTargetView>, VdmError>(Some(t)),
        !crate::text::has_suffix(t.path, seq!['@']),
        !t.version.contains('@'),
        !crate::text::has_suffix(t.version, seq!['/']),
        t.repository matches GitRepositoryView::GitHub { repo, .. } && !crate::text::has_suffix(repo, ".git"@),
    ensures
        spec_parse_manifest_target(t.key, t.version) == Ok::<AnyTargetView, VdmError>(AnyTargetView::Git(t)),
{
    lemma_github_key_round_trip(input, t);
    assert(spec_manifest_input(t.key, t.version) == t.key + seq!['@'] + t.version);
}

/// Text made of `http:` and an HTTP(S) URL is neither a GitHub nor a Git target.
proof fn lemma_http_text_is_no_git_target(text: Seq<char>)
    requires
        crate::text::has_prefix(text, "http:"@),
        spec_is_http_url_text(text.skip(5)),
    ensures
        spec_github_parse(text) == Ok::<Option<GitTargetView>, VdmError>(None),
        spec_git_parse(text) == Ok::<Option<GitTargetView>, VdmError>(None),
{
    reveal_strlit("http:");
    reveal_strlit("http://");
    reveal_strlit("https://");
    reveal_strlit("git:");
    reveal_strlit("gh:");
    reveal_strlit("github.com/");
    reveal_strlit("git@github.com:");
    reveal_strlit("git@github.com/");
    let rest = text.skip(5);
    let secure = crate::text::has_prefix(rest, "https://"@);
    let letters: int = if secure { 5 } else { 4 };
    let j = 5 + letters;
    assert(text.take(5) =~= "http:"@);
    assert(text[0] == 'h' && text[1] == 't' && text[2] == 't' && text[3] == 'p' && text[4] == ':') by {
        assert(text[0] == text.take(5)[0] && text[1] == text.take(5)[1] && text[2] == text.take(5)[2]);
        assert(text[3] == text.take(5)[3] && text[4] == text.take(5)[4]);
    }
    assert forall|q: int| 0 <= q < rest.len() implies #[trigger] rest[q] == text[5 + q] by {}
    if secure {
        let w = "https://"@;
        assert(rest.take(8) =~= w);
        assert(rest[0] == w[0] && rest[1] == w[1] && rest[2] == w[2] && rest[3] == w[3]) by {
            assert(rest[0] == rest.take(8)[0] && rest[1] == rest.take(8)[1]);
            assert(rest[2] == rest.take(8)[2] && rest[3] == rest.take(8)[3]);
        }
        assert(rest[4] == w[4] && rest[5] == w[5] && rest[6] == w[6] && rest[7] == w[7]) by {
            assert(rest[4] == rest.take(8)[4] && rest[5] == rest.take(8)[5]);
            assert(rest[6] == rest.take(8)[6] && rest[7] == rest.take(8)[7]);
        }
    } else {
        let w = "http://"@;
        assert(rest.take(7) =~= w);
        assert(rest[0] == w[0] && rest[1] == w[1] && rest[2] == w[2] && rest[3] == w[3]) by {
            assert(rest[0] == rest.take(7)[0] && rest[1] == rest.take(7)[1]);
            assert(rest[2] == rest.take(7)[2] && rest[3] == rest.take(7)[3]);
        }
        assert(rest[4] == w[4] && rest[5] == w[5] && rest[6] == w[6]) by {
            assert(rest[4] == rest.take(7)[4] && rest[5] == rest.take(7)[5]);
            assert(rest[6] == rest.take(7)[6]);
        }
    }
    assert(text[j] == ':' && text[j + 1] == '/' && text[j + 2] == '/') by {
        assert(text[j] == rest[letters]);
        assert(text[j + 1] == rest[letters + 1]);
        assert(text[j + 2] == rest[letters + 2]);
    }
    assert(text.subrange(j, j + 3) =~= scheme_sep());
    assert forall|i: int| 0 <= i < j implies !crate::text::occurs_at(text, scheme_sep(), i) by {
        if crate::text::occurs_at(text, scheme_sep(), i) {
            assert(text.subrange(i, i + 3)[0] == text[i]);
            assert(text.subrange(i, i + 3)[1] == text[i + 1]);
            assert(text[i] == ':');
            assert(text[i + 1] == '/');
            if i >= 5 {
                assert(text[i] == rest[i - 5]);
            }
            assert(text[5] == rest[0]);
        }
    }
    crate::text::lemma_find_seq_first(text, scheme_sep(), j);
    let scheme = text.take(j);
    assert(scheme.len() == j);
    assert(!crate::git::parse::spec_is_explicit_git(text)) by {
        if crate::text::has_prefix(text, "git:"@) {
            assert(text.take(4)[1] == "git:"@[1]);
        }
    }
    assert(!crate::text::has_prefix(text, "gh:"@)) by {
        if crate::text::has_prefix(text, "gh:"@) {
            assert(text.take(3)[0] == "gh:"@[0]);
        }
    }
    assert(!crate::text::has_prefix(text, "github.com/"@)) by {
        if crate::text::has_prefix(text, "github.com/"@) {
            assert(text.take(11)[0] == "github.com/"@[0]);
        }
    }
    assert(!crate::text::has_prefix(text, "git@github.com:"@)) by {
        if crate::text::has_prefix(text, "git@github.com:"@) {
            assert(text.take(15)[0] == "git@github.com:"@[0]);
        }
    }
    assert(!crate::text::has_prefix(text, "git@github.com/"@)) by {
        if crate::text::has_prefix(text, "git@github.com/"@) {
            assert(text.take(15)[0] == "git@github.com/"@[0]);
        }
    }
    reveal_strlit("https");
    reveal_strlit("http");
    reveal_strlit("ssh");
    reveal_strlit("git");
    reveal_strlit("file");
    assert(!crate::github::parse::spec_is_github_scheme(scheme));
    assert(!crate::git::parse::spec_is_git_scheme(scheme));
}

/// The lock or manifest entry of a pinned HTTP target — its key, with its
/// version — reads back as that same target, whenever parsing its URL's
/// serialization gives that URL again and the serialization is an HTTP(S) URL.
pub proof fn lemma_http_manifest_entry_round_trip(input: Seq<char>, t: HttpTargetView)
    requires
        spec_http_parse(input) == Ok::<Option<HttpTargetView>, VdmError>(Some(t)),
        t.version.len() > 0,
        crate::url_parts::url_parse(t.url.serialization) == Some(t.url),
        spec_is_http_url_text(t.url.serialization),
    ensures
        spec_parse_manifest_target(t.key, t.version) == Ok::<AnyTargetView, VdmError>(AnyTargetView::Http(t)),
{
    reveal_strlit("http:");
    lemma_http_key_round_trip(input, t);
    let text = t.key + seq!['@'] + t.version;
    assert(spec_manifest_input(t.key, t.version) == text);
    let rest = t.url.serialization + seq!['@'] + t.version;
    assert(text.take(5) =~= "http:"@);
    assert(text.skip(5) =~= rest);
    assert(spec_is_http_url_text(rest)) by {
        reveal_strlit("http://");
        reveal_strlit("https://");
        if crate::text::has_prefix(t.url.serialization, "https://"@) {
            assert(rest.take(8) =~= t.url.serialization.take(8));
        } else {
            assert(rest.take(7) =~= t.url.serialization.take(7));
        }
    }
    lemma_http_text_is_no_git_target(text);
}

/// A Git or GitHub target read from any input sits at a path of plain names,
/// and rebuilding it at its own path and version gives it back: moving a
/// target to its own path with `with_path` changes nothing.
pub proof fn lemma_with_own_path(input: Seq<char>)
    ensures
        spec_parse_target(input) matches Ok(AnyTargetView::Git(t)) ==> crate::path::path_all_normal(t.path)
            && crate::git::target::spec_rebuild(t, t.path, t.version) == t,
{
}

} // verus!
