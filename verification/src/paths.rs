//! Where a project keeps its manifest, its lock and its vendored files.
use vstd::prelude::*;

use crate::error::{error_kind, VdmError};
use crate::path::{path_all_normal, path_all_normal_exec, path_join, path_join_exec};
use crate::target::VdmTarget;
use crate::text::{chars_of, eq_chars, split_char, split_char_exec, string_of};

verus! {

/// The paths of a project: its root folder, its manifest and its lock file.
#[derive(Debug)]
pub struct VdmPaths {
    pub root: String,
    pub manifest: String,
    pub lock: String,
}

/// The folder all vendored files go under.
pub open spec fn spec_vendor_dir(root: Seq<char>) -> Seq<char> {
    path_join(root, "vendor"@)
}

/// Where a target is written: its vendor path under the vendor folder.
pub open spec fn spec_target_path(root: Seq<char>, vendor_path: Seq<char>) -> Seq<char> {
    path_join(spec_vendor_dir(root), vendor_path)
}

/// A path recorded in a lock file is safe to write when all its components are
/// plain names and the first one is `vendor`; it then stands under the root.
pub open spec fn spec_lock_destination(root: Seq<char>, value: Seq<char>) -> Result<Seq<char>, VdmError> {
    if path_all_normal(value) && split_char(value, '/')[0] == "vendor"@ {
        Ok(path_join(root, value))
    } else {
        Err(error_kind(VdmError::UnsafeLockPath(arbitrary())))
    }
}

impl VdmPaths {
    /// The folder all vendored files go under.
    pub fn vendor_dir(&self) -> (r: String)
        ensures
            r@ == spec_vendor_dir(self.root@),
    {
        let root = chars_of(self.root.as_str());
        let vendor = chars_of("vendor");
        proof {
            reveal_strlit("vendor");
        }
        string_of(path_join_exec(root.as_slice(), vendor.as_slice()).as_slice())
    }

    /// Where `target` is written.
    pub fn target<T: VdmTarget>(&self, target: &T) -> (r: String)
        ensures
            r@ == spec_target_path(self.root@, target.vendor_path_view()),
    {
        let vendor = chars_of(self.vendor_dir().as_str());
        let path = target.vendor_path();
        let path = chars_of(path.as_str());
        string_of(path_join_exec(vendor.as_slice(), path.as_slice()).as_slice())
    }

    /// The file a lock entry's path stands for, refused unless it is a safe
    /// path inside `vendor/`.
    pub fn lock_destination(&self, value: &str) -> (r: Result<String, VdmError>)
        ensures
            match r {
                Ok(p) => spec_lock_destination(self.root@, value@) == Ok::<Seq<char>, VdmError>(p@),
                Err(e) => spec_lock_destination(self.root@, value@) == Err::<Seq<char>, VdmError>(error_kind(e))
                    && (e matches VdmError::UnsafeLockPath(v) && v@ == value@),
            },
    {
        let v = chars_of(value);
        let segs = split_char_exec(v.as_slice(), '/');
        proof {
            crate::path::lemma_split_nonempty(v@, '/');
            reveal_strlit("vendor");
        }
        let vendor = chars_of("vendor");
        if !path_all_normal_exec(v.as_slice()) || !eq_chars(segs[0].as_slice(), vendor.as_slice()) {
            return Err(VdmError::UnsafeLockPath(value.to_owned()));
        }
        let root = chars_of(self.root.as_str());
        Ok(string_of(path_join_exec(root.as_slice(), v.as_slice()).as_slice()))
    }
}

} // verus!
