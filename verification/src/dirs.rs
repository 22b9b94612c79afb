//! The tool's own directories on this machine, from `directories`.
use vstd::prelude::*;

use crate::error::VdmError;

verus! {

#[verifier::external_type_specification]
#[verifier::external_body]
pub struct ExProjectDirs(directories::ProjectDirs);

/// Calls `directories::ProjectDirs::from`. Whether a home directory is found
/// depends on the environment, so nothing is stated of the result.
#[verifier::external_body]
fn project_dirs(qualifier: &str, organization: &str, application: &str) -> (r: Option<directories::ProjectDirs>) {
    directories::ProjectDirs::from(qualifier, organization, application)
}

/// Calls `directories::ProjectDirs::data_local_dir` and reads the path as text
/// (`to_string_lossy`: the library keeps paths as text, so a folder whose name
/// is not UTF-8 is read with replacement characters). The folder depends on
/// the environment, so nothing is stated of it.
#[verifier::external_body]
fn project_data_local_dir(dirs: &directories::ProjectDirs) -> (r: String) {
    dirs.data_local_dir().to_string_lossy().into_owned()
}

/// The tool's directories (qualifier `fyi`, organization and application `vdm`),
/// with the local data folder they name.
#[derive(Debug)]
pub struct VdmDirs {
    project: directories::ProjectDirs,
    data_local: String,
}

impl VdmDirs {
    /// The project directories held.
    pub closed spec fn project(&self) -> directories::ProjectDirs {
        self.project
    }

    /// The local data folder of the directories held.
    pub closed spec fn data_local_view(&self) -> Seq<char> {
        self.data_local@
    }

    /// Locates the tool's directories.
    pub fn resolve() -> (r: Result<VdmDirs, VdmError>)
        ensures
            r matches Err(e) ==> e == VdmError::DirsUnavailable,
    {
        Self::from_lookup(project_dirs("fyi", "vdm", "vdm"))
    }

    /// The directories from the outcome of looking them up: a failed lookup
    /// is reported as unavailable directories.
    pub fn from_lookup(found: Option<directories::ProjectDirs>) -> (r: Result<VdmDirs, VdmError>)
        ensures
            match found {
                Some(d) => r matches Ok(v) && v.project() == d,
                None => r == Err::<VdmDirs, VdmError>(VdmError::DirsUnavailable),
            },
    {
        match found {
            Some(d) => {
                let data_local = project_data_local_dir(&d);
                Ok(VdmDirs { project: d, data_local })
            },
            None => Err(VdmError::DirsUnavailable),
        }
    }

    /// The local data folder of the tool: the same folder on every call.
    pub fn data_local_dir(&self) -> (r: String)
        ensures
            r@ == self.data_local_view(),
    {
        self.data_local.clone()
    }
}

} // verus!
