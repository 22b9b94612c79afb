//! What every target offers, whatever its source.
use vstd::prelude::*;

use crate::manifest::target::{VdmManifestSourceVersion, VdmManifestTargetUrl};

verus! {

/// A vendored file (or group of files) that a source can fetch.
pub trait VdmTarget {
    /// The manifest key of the target.
    spec fn key_view(&self) -> Seq<char>;

    /// The version the target is pinned to.
    spec fn version_view(&self) -> Seq<char>;

    /// Where the target can be browsed.
    spec fn source_url_view(&self) -> Seq<char>;

    /// Where the target is written, relative to `vendor/`.
    spec fn vendor_path_view(&self) -> Seq<char>;

    fn key(&self) -> (r: &VdmManifestTargetUrl)
        ensures
            r@ == self.key_view(),
    ;

    fn version(&self) -> (r: &VdmManifestSourceVersion)
        ensures
            r@ == self.version_view(),
    ;

    fn source_url(&self) -> (r: &str)
        ensures
            r@ == self.source_url_view(),
    ;

    fn vendor_path(&self) -> (r: String)
        ensures
            r@ == self.vendor_path_view(),
    ;
}

} // verus!
