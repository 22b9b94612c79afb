//! One file recorded in the lock.
use vstd::prelude::*;

use crate::hashing::{content_hash, spec_content_hash};
use crate::manifest::target::{VdmManifestSourceVersion, VdmManifestTargetUrl};
use crate::paths::{spec_target_path, VdmPaths};
use crate::source::file::VdmSourceFile;
use crate::target::VdmTarget;
use crate::text::{chars_of, string_of};

verus! {

/// A vendored file as the lock records it.
#[derive(Debug)]
pub struct VdmLockFile {
    /// Whether the manifest asks for the file itself (or a glob holding it),
    /// rather than it being a dependency of another file.
    pub direct: bool,
    pub version: VdmManifestSourceVersion,
    /// The revision the file was taken at (a commit, or the final URL).
    pub revision: String,
    /// `sha256:` and the hexadecimal digest of the file's content.
    pub hash: String,
    /// Where the file can be browsed.
    pub source: String,
    /// Where the file is written, relative to the project root.
    pub path: String,
    /// The keys of the files this one imports.
    pub dependencies: Vec<VdmManifestTargetUrl>,
}

/// The mathematical form of a [`VdmLockFile`].
pub struct LockFileView {
    pub direct: bool,
    pub version: Seq<char>,
    pub revision: Seq<char>,
    pub hash: Seq<char>,
    pub source: Seq<char>,
    pub path: Seq<char>,
    pub dependencies: Seq<Seq<char>>,
}

impl View for VdmLockFile {
    type V = LockFileView;

    open spec fn view(&self) -> LockFileView {
        LockFileView {
            direct: self.direct,
            version: self.version@,
            revision: self.revision@,
            hash: self.hash@,
            source: self.source@,
            path: self.path@,
            dependencies: self.dependencies@.map_values(|k: VdmManifestTargetUrl| k@),
        }
    }
}

/// What `std::path::Path::strip_prefix` gives for `path` and `base`, read back as
/// text: the rest of `path` after the components of `base`, if `base` is a prefix.
pub uninterp spec fn path_strip_prefix(path: Seq<char>, base: Seq<char>) -> Option<Seq<char>>;

/// Calls `std::path::Path::strip_prefix` and reads the rest back as a string.
#[verifier::external_body]
pub(crate) fn strip_path_prefix(path: &str, base: &str) -> (r: Option<String>)
    ensures
        match r {
            Some(s) => path_strip_prefix(path@, base@) == Some(s@),
            None => path_strip_prefix(path@, base@) is None,
        },
{
    match std::path::Path::new(path).strip_prefix(base) {
        Ok(rest) => Some(rest.to_string_lossy().into_owned()),
        Err(_) => None,
    }
}

/// A path relative to `root` when it lies under it, else the path itself.
pub open spec fn spec_relative_to(path: Seq<char>, root: Seq<char>) -> Seq<char> {
    match path_strip_prefix(path, root) {
        Some(rest) => rest,
        None => path,
    }
}

/// The lock record of a target downloaded as `bytes` at `revision`.
pub open spec fn spec_lock_file(
    version: Seq<char>,
    revision: Seq<char>,
    bytes: Seq<u8>,
    source: Seq<char>,
    root: Seq<char>,
    vendor_path: Seq<char>,
    direct: bool,
    dependencies: Seq<Seq<char>>,
) -> LockFileView {
    LockFileView {
        direct,
        version,
        revision,
        hash: spec_content_hash(bytes),
        source,
        path: spec_relative_to(spec_target_path(root, vendor_path), root),
        dependencies,
    }
}

/// Two lock records are the same record.
pub fn same_lock_file(a: &VdmLockFile, b: &VdmLockFile) -> (r: bool)
    ensures
        r == (a@ == b@),
{
    if a.direct != b.direct || a.version != b.version || a.revision != b.revision || a.hash != b.hash
        || a.source != b.source || a.path != b.path || a.dependencies.len() != b.dependencies.len() {
        proof {
            if a@ == b@ {
                assert(a@.dependencies.len() == b@.dependencies.len());
            }
        }
        return false;
    }
    let mut i: usize = 0;
    while i < a.dependencies.len()
        invariant
            a.dependencies@.len() == b.dependencies@.len(),
            i <= a.dependencies@.len(),
            forall|j: int| 0 <= j < i ==> a.dependencies@[j]@ == b.dependencies@[j]@,
        decreases a.dependencies@.len() - i,
    {
        if a.dependencies[i] != b.dependencies[i] {
            proof {
                if a@ == b@ {
                    assert(a@.dependencies[i as int] == b@.dependencies[i as int]);
                }
            }
            return false;
        }
        i += 1;
    }
    assert(a@.dependencies =~= b@.dependencies);
    true
}

impl VdmLockFile {
    /// The lock record of `target` as downloaded: its version, the download's
    /// revision and content hash, its source URL and its vendor path relative to
    /// the project root.
    pub fn new<T: VdmTarget>(
        target: &T,
        download: &VdmSourceFile,
        paths: &VdmPaths,
        direct: bool,
        dependencies: Vec<VdmManifestTargetUrl>,
    ) -> (r: VdmLockFile)
        ensures
            r@ == spec_lock_file(
                target.version_view(),
                download.revision@,
                download.bytes@,
                target.source_url_view(),
                paths.root@,
                target.vendor_path_view(),
                direct,
                dependencies@.map_values(|k: VdmManifestTargetUrl| k@),
            ),
    {
        let hash = content_hash(download.bytes.as_slice());
        let path = paths.target(target);
        let relative = match strip_path_prefix(path.as_str(), paths.root.as_str()) {
            Some(rest) => rest,
            None => path,
        };
        VdmLockFile {
            direct,
            version: target.version().clone(),
            revision: download.revision.clone(),
            hash: string_of(hash.as_slice()),
            source: target.source_url().to_owned(),
            path: relative,
            dependencies,
        }
    }

    /// A copy of the record.
    pub fn duplicate(&self) -> (r: VdmLockFile)
        ensures
            r@ == self@,
    {
        let mut dependencies: Vec<VdmManifestTargetUrl> = Vec::new();
        let mut i: usize = 0;
        while i < self.dependencies.len()
            invariant
                i <= self.dependencies@.len(),
                dependencies@.len() == i,
                forall|j: int| 0 <= j < i ==> dependencies@[j]@ == self.dependencies@[j]@,
            decreases self.dependencies@.len() - i,
        {
            dependencies.push(self.dependencies[i].clone());
            i += 1;
        }
        let r = VdmLockFile {
            direct: self.direct,
            version: self.version.clone(),
            revision: self.revision.clone(),
            hash: self.hash.clone(),
            source: self.source.clone(),
            path: self.path.clone(),
            dependencies,
        };
        assert(r@.dependencies =~= self@.dependencies);
        r
    }
}

} // verus!
