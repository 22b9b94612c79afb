//! URLs as parsed by `reqwest::Url` (the WHATWG URL parser of the `url` crate),
//! handed to the library as plain strings.
use vstd::prelude::*;

verus! {

/// The parts of a parsed URL that the library reads.
#[derive(Debug)]
pub struct UrlParts {
    /// The whole URL, serialized by the parser.
    pub serialization: String,
    pub scheme: String,
    pub host: Option<String>,
    pub port: Option<u16>,
    pub path: String,
    pub query: Option<String>,
    pub fragment: Option<String>,
}

/// The mathematical form of a parsed URL.
pub struct UrlView {
    pub serialization: Seq<char>,
    pub scheme: Seq<char>,
    pub host: Option<Seq<char>>,
    pub port: Option<u16>,
    pub path: Seq<char>,
    pub query: Option<Seq<char>>,
    pub fragment: Option<Seq<char>>,
}

pub open spec fn opt_view(s: Option<String>) -> Option<Seq<char>> {
    match s {
        Some(s) => Some(s@),
        None => None,
    }
}

impl View for UrlParts {
    type V = UrlView;

    open spec fn view(&self) -> UrlView {
        UrlView {
            serialization: self.serialization@,
            scheme: self.scheme@,
            host: opt_view(self.host),
            port: self.port,
            path: self.path@,
            query: opt_view(self.query),
            fragment: opt_view(self.fragment),
        }
    }
}

/// What `reqwest::Url::parse` makes of a string: `None` where it refuses it.
pub uninterp spec fn url_parse(input: Seq<char>) -> Option<UrlView>;

/// The text of the error that `reqwest::Url::parse` reports for an input it refuses.
pub uninterp spec fn url_parse_error(input: Seq<char>) -> Seq<char>;

/// Calls `reqwest::Url::parse`; the result is the named parse of the input, read
/// through `as_str`, `scheme`, `host_str`, `port`, `path`, `query` and `fragment`,
/// or the text of the parser's error. Nothing is claimed of how the parser
/// normalizes a URL.
#[verifier::external_body]
pub(crate) fn parse_url(input: &str) -> (r: Result<UrlParts, String>)
    ensures
        match r {
            Ok(u) => url_parse(input@) == Some(u@),
            Err(text) => url_parse(input@) is None && text@ == url_parse_error(input@),
        },
{
    match reqwest::Url::parse(input) {
        Ok(url) => Ok(UrlParts {
            serialization: url.as_str().to_owned(),
            scheme: url.scheme().to_owned(),
            host: url.host_str().map(str::to_owned),
            port: url.port(),
            path: url.path().to_owned(),
            query: url.query().map(str::to_owned),
            fragment: url.fragment().map(str::to_owned),
        }),
        Err(error) => Err(error.to_string()),
    }
}

} // verus!
