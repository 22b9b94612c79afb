//! Files fetched directly over HTTP(S).
use vstd::prelude::*;

use crate::error::VdmError;
use crate::hashing::{content_hash, spec_content_hash};
use crate::manifest::target::{VdmManifestSourceVersion, VdmManifestTargetUrl};
use crate::target::VdmTarget;
use crate::text::{chars_of, eq_chars, string_of};
use crate::url_parts::{UrlParts, UrlView};

verus! {

/// A file at an HTTP(S) URL, optionally pinned to a content hash.
#[derive(Debug)]
pub struct VdmHttpTarget {
    url: UrlParts,
    key: VdmManifestTargetUrl,
    version: VdmManifestSourceVersion,
    vendor_path: String,
}

/// The mathematical form of a [`VdmHttpTarget`].
pub struct HttpTargetView {
    pub url: UrlView,
    pub key: Seq<char>,
    pub version: Seq<char>,
    pub vendor_path: Seq<char>,
}

impl View for VdmHttpTarget {
    type V = HttpTargetView;

    closed spec fn view(&self) -> HttpTargetView {
        HttpTargetView {
            url: self.url@,
            key: self.key@,
            version: self.version@,
            vendor_path: self.vendor_path@,
        }
    }
}

/// Downloaded content satisfies the target's pin: the target is unpinned, or
/// the content hashes to the pinned `sha256:<hex>`.
pub open spec fn spec_content_matches(version: Seq<char>, bytes: Seq<u8>) -> bool {
    version.len() == 0 || version == spec_content_hash(bytes)
}

impl VdmHttpTarget {
    pub fn new(
        url: UrlParts,
        key: VdmManifestTargetUrl,
        version: VdmManifestSourceVersion,
        vendor_path: String,
    ) -> (r: Self)
        ensures
            r@ == (HttpTargetView { url: url@, key: key@, version: version@, vendor_path: vendor_path@ }),
    {
        Self { url, key, version, vendor_path }
    }

    /// The same target pinned to the hash of `bytes`.
    pub fn with_content_version(self, bytes: &[u8]) -> (r: Self)
        ensures
            r@ == (HttpTargetView { version: spec_content_hash(bytes@), ..self@ }),
    {
        let hash = content_hash(bytes);
        Self { version: VdmManifestSourceVersion::from_chars(hash.as_slice()), ..self }
    }

    /// The URL of the file.
    pub fn url(&self) -> (r: &UrlParts)
        ensures
            r@ == self@.url,
    {
        &self.url
    }

    /// Checks downloaded content against the target's pin.
    pub fn check_content(&self, bytes: &[u8]) -> (r: Result<(), VdmError>)
        ensures
            match r {
                Ok(()) => spec_content_matches(self@.version, bytes@),
                Err(e) => !spec_content_matches(self@.version, bytes@) && (e matches VdmError::HttpContentHashMismatch(k, v, h)
                    && k@ == self@.key && v@ == self@.version && h@ == spec_content_hash(bytes@)),
            },
    {
        let v = self.version.to_chars();
        if v.len() == 0 {
            return Ok(());
        }
        let hash = content_hash(bytes);
        if eq_chars(v.as_slice(), hash.as_slice()) {
            Ok(())
        } else {
            Err(VdmError::HttpContentHashMismatch(self.key.as_str().to_owned(), self.version.as_str().to_owned(), string_of(hash.as_slice())))
        }
    }
}

impl VdmTarget for VdmHttpTarget {
    open spec fn key_view(&self) -> Seq<char> {
        self@.key
    }

    open spec fn version_view(&self) -> Seq<char> {
        self@.version
    }

    /// An HTTP target is browsed at its key.
    open spec fn source_url_view(&self) -> Seq<char> {
        self@.key
    }

    open spec fn vendor_path_view(&self) -> Seq<char> {
        self@.vendor_path
    }

    fn key(&self) -> (r: &VdmManifestTargetUrl) {
        &self.key
    }

    fn version(&self) -> (r: &VdmManifestSourceVersion) {
        &self.version
    }

    fn source_url(&self) -> (r: &str) {
        self.key.as_str()
    }

    fn vendor_path(&self) -> (r: String) {
        self.vendor_path.clone()
    }
}

/// Pinning a target to the content it was downloaded with makes that content
/// pass the target's check, and an unpinned target accepts any content.
pub proof fn lemma_pinned_content_matches(t: HttpTargetView, bytes: Seq<u8>, other: Seq<u8>)
    ensures
        spec_content_matches(HttpTargetView { version: spec_content_hash(bytes), ..t }.version, bytes),
        spec_content_matches(Seq::<char>::empty(), other),
{
}

} // verus!
