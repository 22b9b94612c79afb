//! Reading HTTP targets: `[http:]http(s)://...[@sha256:<64 hex>]`.
use vstd::prelude::*;

use crate::error::{error_kind, VdmError};
use crate::http::target::{HttpTargetView, VdmHttpTarget};
use crate::manifest::target::{VdmManifestSourceVersion, VdmManifestTargetUrl};
use crate::path::{path_all_normal, path_all_normal_exec, path_join, path_join_exec};
use crate::text::{
    all_hex, all_hex_exec, ascii_lower, chars_of, concat2, eq_chars, has_prefix, has_suffix, is_hex_digit, lower_ascii,
    lower_ascii_exec, push_all, slice_chars, starts_with, string_of, trim_start_char,
    trim_start_char_exec,
};
use crate::url_parts::{parse_url, url_parse, UrlParts, UrlView};

verus! {

/// The source of files fetched directly over HTTP(S).
#[derive(Debug)]
pub struct VdmHttpSource;

/// `sha256:`, which begins a content pin.
pub open spec fn pin_prefix() -> Seq<char> {
    seq!['s', 'h', 'a', '2', '5', '6', ':']
}

/// The input without an explicit `http:` prefix in front of an HTTP(S) URL.
pub open spec fn spec_strip_explicit_http(input: Seq<char>) -> Seq<char> {
    if has_prefix(input, "http:"@) && spec_is_http_url_text(input.skip("http:"@.len() as int)) {
        input.skip("http:"@.len() as int)
    } else {
        input
    }
}

/// The text begins like an HTTP(S) URL.
pub open spec fn spec_is_http_url_text(s: Seq<char>) -> bool {
    has_prefix(s, "http://"@) || has_prefix(s, "https://"@)
}

/// `s` ends, from position `k`, with `@sha256:` and exactly 64 hexadecimal digits.
pub open spec fn spec_is_pin_at(s: Seq<char>, k: int) -> bool {
    &&& 0 <= k
    &&& s.len() == k + 72
    &&& s[k] == '@'
    &&& s.subrange(k + 1, k + 8) == pin_prefix()
    &&& all_hex(s.skip(k + 8))
}

/// Splits a trailing content pin off the URL: `(url, Some("sha256:<hex>"))`, or
/// the whole input when it does not end with a complete pin.
pub open spec fn spec_split_http_version(s: Seq<char>) -> (Seq<char>, Option<Seq<char>>) {
    if s.len() >= 72 && spec_is_pin_at(s, s.len() - 72) {
        (s.take(s.len() - 72), Some(s.skip(s.len() - 71)))
    } else {
        (s, None)
    }
}

/// The decimal digit for `d` (0 to 9).
pub open spec fn decimal_digit(d: int) -> char {
    (('0' as int) + d) as char
}

/// `n` in decimal, without leading zeros.
pub open spec fn decimal(n: nat) -> Seq<char>
    decreases n,
{
    if n < 10 {
        seq![decimal_digit(n as int)]
    } else {
        decimal(n / 10).push(decimal_digit((n % 10) as int))
    }
}

/// The vendor folder name of a host: `host`, or `host_port` with an explicit port.
pub open spec fn spec_authority(host: Seq<char>, port: Option<u16>) -> Seq<char> {
    match port {
        Some(p) => host + seq!['_'] + decimal(p as nat),
        None => host,
    }
}

/// The checks on a parsed HTTP URL, and the target it makes.
pub open spec fn spec_http_finish(url: Option<UrlView>, version: Option<Seq<char>>) -> Result<HttpTargetView, VdmError> {
    match url {
        None => Err(error_kind(VdmError::InvalidHttpUrl(arbitrary()))),
        Some(u) => match u.host {
            None => Err(VdmError::HttpUrlWithoutHost),
            Some(host) => {
                let path = trim_start_char(u.path, '/');
                if path.len() == 0 {
                    Err(VdmError::HttpUrlWithoutFile)
                } else if has_suffix(path, seq!['/']) {
                    Err(VdmError::HttpUrlIsDirectory)
                } else if !path_all_normal(path) {
                    Err(VdmError::HttpUrlWithTraversal)
                } else {
                    Ok(HttpTargetView {
                        url: u,
                        key: "http:"@ + u.serialization,
                        version: lower_ascii(
                            match version {
                                Some(v) => v,
                                None => Seq::empty(),
                            },
                        ),
                        vendor_path: path_join(path_join("@http"@, spec_authority(host, u.port)), path),
                    })
                }
            },
        },
    }
}

/// What the HTTP source makes of an input: `Ok(None)` when it is not an HTTP URL.
pub open spec fn spec_http_parse(given: Seq<char>) -> Result<Option<HttpTargetView>, VdmError> {
    let input = spec_strip_explicit_http(given);
    if !spec_is_http_url_text(input) {
        Ok(None)
    } else {
        let (u, version) = spec_split_http_version(input);
        match spec_http_finish(url_parse(u), version) {
            Ok(t) => Ok(Some(t)),
            Err(e) => Err(e),
        }
    }
}

/// The parsed URL behind a manifest base, `Ok(None)` when it is not an HTTP URL.
pub open spec fn spec_http_normalize_url(given: Seq<char>) -> Result<Option<UrlView>, VdmError> {
    let input = spec_strip_explicit_http(given);
    if !spec_is_http_url_text(input) {
        Ok(None)
    } else {
        match url_parse(input) {
            None => Err(error_kind(VdmError::InvalidHttpUrl(arbitrary()))),
            Some(u) => Ok(Some(u)),
        }
    }
}

pub open spec fn http_result_view(r: Result<Option<VdmHttpTarget>, VdmError>) -> Result<Option<HttpTargetView>, VdmError> {
    match r {
        Ok(Some(t)) => Ok(Some(t@)),
        Ok(None) => Ok(None),
        Err(e) => Err(error_kind(e)),
    }
}

fn literal(s: &str) -> (r: Vec<char>)
    ensures
        r@ == s@,
{
    chars_of(s)
}

fn decimal_digit_exec(d: usize) -> (c: char)
    requires
        d < 10,
    ensures
        c == decimal_digit(d as int),
{
    let digits: [char; 10] = ['0', '1', '2', '3', '4', '5', '6', '7', '8', '9'];
    assert(digits@ =~= seq!['0', '1', '2', '3', '4', '5', '6', '7', '8', '9']);
    digits[d]
}

/// `n` in decimal.
pub fn decimal_exec(n: usize) -> (r: Vec<char>)
    ensures
        r@ == decimal(n as nat),
    decreases n,
{
    if n < 10 {
        let r = vec![decimal_digit_exec(n)];
        assert(r@ =~= seq![decimal_digit(n as int)]);
        r
    } else {
        let mut r = decimal_exec(n / 10);
        r.push(decimal_digit_exec(n % 10));
        r
    }
}

fn is_http_url_text(s: &[char]) -> (r: bool)
    ensures
        r == spec_is_http_url_text(s@),
{
    starts_with(s, literal("http://").as_slice()) || starts_with(s, literal("https://").as_slice())
}

impl VdmHttpSource {
    /// The input without an explicit `http:` prefix in front of an HTTP(S) URL.
    pub fn strip_explicit(input: &[char]) -> (r: Vec<char>)
        ensures
            r@ == spec_strip_explicit_http(input@),
    {
        let p = literal("http:");
        if starts_with(input, p.as_slice()) {
            let rest = slice_chars(input, p.len(), input.len());
            assert(rest@ =~= input@.skip("http:"@.len() as int));
            if is_http_url_text(rest.as_slice()) {
                return rest;
            }
        }
        let all = slice_chars(input, 0, input.len());
        assert(all@ =~= input@);
        all
    }

    /// Splits a trailing `@sha256:<64 hex>` pin off an HTTP URL.
    pub fn parse(input: &[char]) -> (r: (Vec<char>, Option<Vec<char>>))
        ensures
            spec_split_http_version(input@) == (r.0@, crate::github::parse::opt_chars(r.1)),
    {
        let n = input.len();
        if n >= 72 {
            let k = n - 72;
            let tag = slice_chars(input, k + 1, k + 8);
            let pin = vec!['s', 'h', 'a', '2', '5', '6', ':'];
            assert(pin@ =~= pin_prefix());
            let digits = slice_chars(input, k + 8, n);
            assert(digits@ =~= input@.skip(k + 8));
            if input[k] == '@' && eq_chars(tag.as_slice(), pin.as_slice()) && all_hex_exec(digits.as_slice()) {
                let url = slice_chars(input, 0, k);
                let version = slice_chars(input, k + 1, n);
                assert(url@ =~= input@.take(k as int));
                assert(version@ =~= input@.skip(k + 1));
                return (url, Some(version));
            }
        }
        let all = slice_chars(input, 0, n);
        assert(all@ =~= input@);
        (all, None)
    }

    /// Checks the URL parsed from `text` and builds the target.
    pub fn finish(text: &str, url: Option<UrlParts>, version: Option<Vec<char>>) -> (r: Result<VdmHttpTarget, VdmError>)
        ensures
            match r {
                Ok(t) => spec_http_finish(crate::git::parse::opt_url_view(&url), crate::github::parse::opt_chars(version)) == Ok::<HttpTargetView, VdmError>(t@),
                Err(e) => spec_http_finish(crate::git::parse::opt_url_view(&url), crate::github::parse::opt_chars(version)) == Err::<HttpTargetView, VdmError>(error_kind(e)),
            },
            r matches Err(VdmError::InvalidHttpUrl(s)) ==> s@ == text@,
    {
        let u = match url {
            None => return Err(VdmError::InvalidHttpUrl(text.to_owned())),
            Some(u) => u,
        };
        let host = match &u.host {
            None => return Err(VdmError::HttpUrlWithoutHost),
            Some(h) => chars_of(h.as_str()),
        };
        let path = trim_start_char_exec(chars_of(u.path.as_str()).as_slice(), '/');
        if path.len() == 0 {
            return Err(VdmError::HttpUrlWithoutFile);
        }
        if path[path.len() - 1] == '/' {
            assert(has_suffix(path@, seq!['/'])) by {
                assert(path@.skip(path@.len() - 1) =~= seq!['/']);
            }
            return Err(VdmError::HttpUrlIsDirectory);
        }
        assert(!has_suffix(path@, seq!['/'])) by {
            if has_suffix(path@, seq!['/']) {
                assert(path@.skip(path@.len() - 1)[0] == path@[path@.len() - 1]);
            }
        }
        if !path_all_normal_exec(path.as_slice()) {
            return Err(VdmError::HttpUrlWithTraversal);
        }
        let authority = match u.port {
            Some(p) => {
                let mut a = host.clone();
                a.push('_');
                push_all(&mut a, decimal_exec(p as usize).as_slice());
                assert(a@ =~= host@ + seq!['_'] + decimal(p as nat));
                a
            },
            None => host,
        };
        let first = path_join_exec(literal("@http").as_slice(), authority.as_slice());
        let vendor_path = path_join_exec(first.as_slice(), path.as_slice());
        let key = concat2(literal("http:").as_slice(), chars_of(u.serialization.as_str()).as_slice());
        let v = match version {
            Some(v) => lower_ascii_exec(v.as_slice()),
            None => {
                let e: Vec<char> = Vec::new();
                assert(lower_ascii(Seq::<char>::empty()) =~= Seq::<char>::empty());
                e
            },
        };
        Ok(VdmHttpTarget::new(
            u,
            VdmManifestTargetUrl::from_chars(key.as_slice()),
            VdmManifestSourceVersion::from_chars(v.as_slice()),
            string_of(vendor_path.as_slice()),
        ))
    }

    /// Reads `input` as an HTTP target: `Ok(None)` when it is not an HTTP URL.
    pub fn parse_target(&self, input: &str) -> (r: Result<Option<VdmHttpTarget>, VdmError>)
        ensures
            http_result_view(r) == spec_http_parse(input@),
            r matches Err(VdmError::InvalidHttpUrl(s)) ==> s@ == spec_split_http_version(spec_strip_explicit_http(input@)).0,
    {
        let stripped = Self::strip_explicit(chars_of(input).as_slice());
        if !is_http_url_text(stripped.as_slice()) {
            return Ok(None);
        }
        let (u, version) = Self::parse(stripped.as_slice());
        let text = string_of(u.as_slice());
        let url = parse_url(text.as_str()).ok();
        match Self::finish(text.as_str(), url, version) {
            Ok(t) => Ok(Some(t)),
            Err(e) => Err(e),
        }
    }

    /// The parsed URL behind a manifest base: `Ok(None)` when it is not an HTTP URL.
    pub fn normalize_url(input: &str) -> (r: Result<Option<UrlParts>, VdmError>)
        ensures
            match r {
                Ok(Some(u)) => spec_http_normalize_url(input@) == Ok::<Option<UrlView>, VdmError>(Some(u@)),
                Ok(None) => spec_http_normalize_url(input@) == Ok::<Option<UrlView>, VdmError>(None),
                Err(e) => spec_http_normalize_url(input@) == Err::<Option<UrlView>, VdmError>(error_kind(e)),
            },
            r matches Err(VdmError::InvalidHttpUrl(s)) ==> s@ == spec_strip_explicit_http(input@),
    {
        let stripped = Self::strip_explicit(chars_of(input).as_slice());
        if !is_http_url_text(stripped.as_slice()) {
            return Ok(None);
        }
        let text = string_of(stripped.as_slice());
        match parse_url(text.as_str()) {
            Err(_) => Err(VdmError::InvalidHttpUrl(text)),
            Ok(u) => Ok(Some(u)),
        }
    }
}

proof fn lemma_lower_twice(s: Seq<char>)
    ensures
        lower_ascii(lower_ascii(s)) == lower_ascii(s),
{
    assert forall|i: int| 0 <= i < s.len() implies #[trigger] lower_ascii(lower_ascii(s))[i] == lower_ascii(s)[i] by {
        let c = s[i];
        if 'A' <= c && c <= 'Z' {
            assert('a' <= ascii_lower(c) && ascii_lower(c) <= 'z');
        }
    }
    assert(lower_ascii(lower_ascii(s)) =~= lower_ascii(s));
}

proof fn lemma_lower_hex(s: Seq<char>)
    requires
        all_hex(s),
    ensures
        all_hex(lower_ascii(s)),
{
    assert forall|i: int| 0 <= i < lower_ascii(s).len() implies is_hex_digit(#[trigger] lower_ascii(s)[i]) by {
        let c = s[i];
        assert(is_hex_digit(c));
        if 'A' <= c && c <= 'F' {
            assert('a' <= ascii_lower(c) && ascii_lower(c) <= 'f');
        }
    }
}

/// A pinned HTTP target read back from its key followed by `@` and its version
/// is the same target, whenever parsing its URL's serialization gives that
/// URL again and the serialization is an HTTP(S) URL.  (An unpinned target
/// reads back with a trailing `@` in its URL.)
pub proof fn lemma_http_key_round_trip(input: Seq<char>, t: HttpTargetView)
    requires
        spec_http_parse(input) == Ok::<Option<HttpTargetView>, VdmError>(Some(t)),
        t.version.len() > 0,
        url_parse(t.url.serialization) == Some(t.url),
        spec_is_http_url_text(t.url.serialization),
    ensures
        spec_http_parse(t.key + seq!['@'] + t.version) == Ok::<Option<HttpTargetView>, VdmError>(Some(t)),
{
    reveal_strlit("http:");
    reveal_strlit("http://");
    reveal_strlit("https://");
    let inp = spec_strip_explicit_http(input);
    let (u, ver) = spec_split_http_version(inp);
    let k = inp.len() - 72;
    assert(ver is Some);
    let v = ver->0;
    let h = inp.skip(k + 8);
    assert(v =~= pin_prefix() + h);
    assert(all_hex(h));
    let lh = lower_ascii(h);
    lemma_lower_hex(h);
    assert(lower_ascii(pin_prefix()) =~= pin_prefix());
    assert(lower_ascii(v) =~= pin_prefix() + lh);
    assert(t.version == pin_prefix() + lh);
    let ser = t.url.serialization;
    let text = t.key + seq!['@'] + t.version;
    assert(t.key == "http:"@ + ser);
    let rest = ser + seq!['@'] + t.version;
    assert(text.take(5) =~= "http:"@);
    assert(text.skip(5) =~= rest);
    assert(spec_is_http_url_text(rest)) by {
        if has_prefix(ser, "https://"@) {
            assert(rest.take(8) =~= ser.take(8));
        } else {
            assert(rest.take(7) =~= ser.take(7));
        }
    }
    assert(spec_strip_explicit_http(text) == rest);
    let n = rest.len() as int;
    assert(n >= 72);
    assert(rest[n - 72] == '@');
    assert(rest.subrange(n - 71, n - 64) =~= pin_prefix());
    assert(rest.skip(n - 64) =~= lh);
    assert(spec_is_pin_at(rest, n - 72));
    assert(rest.take(n - 72) =~= ser);
    assert(rest.skip(n - 71) =~= t.version);
    lemma_lower_twice(h);
    assert(lower_ascii(t.version) =~= t.version) by {
        assert(lower_ascii(pin_prefix() + lh) =~= lower_ascii(pin_prefix()) + lower_ascii(lh));
    }
}

/// Trimming `c` off the start leaves nothing, or a text that begins otherwise.
proof fn lemma_trim_start_first(s: Seq<char>, c: char)
    ensures
        trim_start_char(s, c).len() == 0 || trim_start_char(s, c)[0] != c,
    decreases s.len(),
{
    if s.len() > 0 && s[0] == c {
        lemma_trim_start_first(s.skip(1), c);
    }
}

/// The vendor path of an HTTP target is `@http/`, the host, `_` and the
/// port in decimal when the URL names a port, then `/` and the URL's path
/// without its leading slashes (for any host that is not empty and holds no
/// `/`, as no host does).
pub proof fn lemma_http_vendor_path(u: UrlView, version: Option<Seq<char>>, h: Seq<char>, t: HttpTargetView)
    requires
        u.host == Some(h),
        h.len() > 0,
        !h.contains('/'),
        spec_http_finish(Some(u), version) == Ok::<HttpTargetView, VdmError>(t),
    ensures
        u.port matches Some(p) ==> t.vendor_path == "@http/"@ + h + seq!['_'] + decimal(p as nat) + seq!['/']
            + trim_start_char(u.path, '/'),
        u.port is None ==> t.vendor_path == "@http/"@ + h + seq!['/'] + trim_start_char(u.path, '/'),
{
    reveal_strlit("@http");
    reveal_strlit("@http/");
    let path = trim_start_char(u.path, '/');
    lemma_trim_start_first(u.path, '/');
    assert(path.len() > 0);
    let a = spec_authority(h, u.port);
    match u.port {
        Some(p) => {
            let d = decimal(p as nat);
            assert(h[0] != '/');
            assert(a[0] == h[0]);
            assert(a.len() > 0);
            assert(a.last() == d.last());
            assert(d.last() != '/') by {
                if (p as nat) < 10 {
                } else {
                    assert(d.last() == decimal_digit(((p as nat) % 10) as int));
                }
            }
            assert(path_join("@http"@, a) =~= "@http/"@ + h + seq!['_'] + d);
            assert(path_join(path_join("@http"@, a), path) =~= "@http/"@ + h + seq!['_'] + d + seq!['/'] + path);
        },
        None => {
            assert(h[0] != '/');
            assert(h.last() != '/') by {
                assert(h[h.len() - 1] != '/');
            }
            assert(path_join("@http"@, a) =~= "@http/"@ + h);
            assert(path_join(path_join("@http"@, a), path) =~= "@http/"@ + h + seq!['/'] + path);
        },
    }
}

/// Two HTTP URLs with the same host and path but different ports (or a
/// port on one and none on the other) are vendored to different paths.
pub proof fn lemma_http_port_separates(
    u1: UrlView,
    v1: Option<Seq<char>>,
    t1: HttpTargetView,
    u2: UrlView,
    v2: Option<Seq<char>>,
    t2: HttpTargetView,
    h: Seq<char>,
)
    requires
        u1.host == Some(h),
        u2.host == Some(h),
        h.len() > 0,
        !h.contains('/'),
        u1.path == u2.path,
        u1.port != u2.port,
        spec_http_finish(Some(u1), v1) == Ok::<HttpTargetView, VdmError>(t1),
        spec_http_finish(Some(u2), v2) == Ok::<HttpTargetView, VdmError>(t2),
    ensures
        t1.vendor_path != t2.vendor_path,
{
    lemma_http_vendor_path(u1, v1, h, t1);
    lemma_http_vendor_path(u2, v2, h, t2);
    let tail = seq!['/'] + trim_start_char(u1.path, '/');
    let x = "@http/"@ + h + seq!['_'];
    match (u1.port, u2.port) {
        (Some(p1), Some(p2)) => {
            let d1 = decimal(p1 as nat);
            let d2 = decimal(p2 as nat);
            assert(t1.vendor_path =~= x + d1 + tail);
            assert(t2.vendor_path =~= x + d2 + tail);
            if t1.vendor_path == t2.vendor_path {
                assert(d1.len() == d2.len());
                assert(d1 =~= t1.vendor_path.subrange(x.len() as int, (x.len() + d1.len()) as int));
                assert(d2 =~= t2.vendor_path.subrange(x.len() as int, (x.len() + d2.len()) as int));
                lemma_decimal_injective(p1 as nat, p2 as nat);
            }
        },
        (Some(p1), None) => {
            assert(decimal(p1 as nat).len() > 0);
        },
        (None, Some(p2)) => {
            assert(decimal(p2 as nat).len() > 0);
        },
        (None, None) => {},
    }
}

/// Different numbers have different decimal forms.
pub proof fn lemma_decimal_injective(n: nat, m: nat)
    requires
        decimal(n) == decimal(m),
    ensures
        n == m,
    decreases n,
{
    if n < 10 && m < 10 {
        assert(decimal(n)[0] == decimal(m)[0]);
        assert(decimal(n)[0] == decimal_digit(n as int));
        assert(decimal(m)[0] == decimal_digit(m as int));
        assert(decimal_digit(n as int) as int == 48 + n);
        assert(decimal_digit(m as int) as int == 48 + m);
        assert(n == m);
    } else if n < 10 {
        lemma_decimal_len(m / 10);
        assert(decimal(m).len() >= 2);
        assert(n == m);
    } else if m < 10 {
        lemma_decimal_len(n / 10);
        assert(decimal(n).len() >= 2);
    } else {
        assert(decimal(n).last() == decimal(m).last());
        assert(decimal_digit((n % 10) as int) as int == 48 + n % 10);
        assert(decimal_digit((m % 10) as int) as int == 48 + m % 10);
        assert(decimal(n).last() == decimal_digit((n % 10) as int));
        assert(decimal(m).last() == decimal_digit((m % 10) as int));
        assert(n == 10 * (n / 10) + n % 10);
        assert(m == 10 * (m / 10) + m % 10);
        assert(decimal(n / 10) =~= decimal(n).drop_last());
        assert(decimal(m / 10) =~= decimal(m).drop_last());
        lemma_decimal_injective(n / 10, m / 10);
        assert(n == m);
    }
}

proof fn lemma_decimal_len(n: nat)
    ensures
        decimal(n).len() >= 1,
    decreases n,
{
    if n >= 10 {
        lemma_decimal_len(n / 10);
    }
}

} // verus!
