//! The local cache of bare GitHub repositories, one folder per owner.
use vstd::prelude::*;

use crate::dirs::VdmDirs;
use crate::error::VdmError;
use crate::github::target::VdmGitHubTarget;
use crate::path::{path_join, path_join_exec};
use crate::text::{chars_of, concat2, push_all, string_of};

verus! {

/// Where the bare GitHub repositories are kept: `git/db/github.com` under the
/// local data folder.
#[derive(Debug)]
pub struct VdmGitHubCache {
    root: String,
}

impl VdmGitHubCache {
    /// The folder the repositories are kept in.
    pub closed spec fn root_view(&self) -> Seq<char> {
        self.root@
    }

    /// The cache in the tool's local data folder: `git/db/github.com` joined to the folder
    /// that the tool's directories name on this machine.
    pub fn try_new() -> (r: Result<Self, VdmError>)
        ensures
            r matches Err(e) ==> e == VdmError::DataDirUnavailable,
            r matches Ok(c) ==> exists|data_dir: Seq<char>| #[trigger] path_join(data_dir, "git/db/github.com"@) == c.root_view(),
    {
        match VdmDirs::resolve() {
            Err(_) => Err(VdmError::DataDirUnavailable),
            Ok(dirs) => {
                let c = Self::from_dirs(&dirs);
                assert(path_join(dirs.data_local_view(), "git/db/github.com"@) == c.root_view());
                Ok(c)
            },
        }
    }

    /// The cache in the local data folder of the located directories `dirs`.
    pub fn from_dirs(dirs: &VdmDirs) -> (r: Self)
        ensures
            r.root_view() == path_join(dirs.data_local_view(), "git/db/github.com"@),
    {
        Self::in_data_dir(dirs.data_local_dir().as_str())
    }

    /// The cache under the local data folder `data_dir`.
    pub fn in_data_dir(data_dir: &str) -> (r: Self)
        ensures
            r.root_view() == path_join(data_dir@, "git/db/github.com"@),
    {
        let db = chars_of("git/db/github.com");
        VdmGitHubCache { root: string_of(path_join_exec(chars_of(data_dir).as_slice(), db.as_slice()).as_slice()) }
    }

    /// The folder of the target's owner.
    pub fn owner_dir(&self, target: &VdmGitHubTarget) -> (r: String)
        ensures
            r@ == path_join(self.root_view(), target@.owner),
    {
        string_of(path_join_exec(chars_of(self.root.as_str()).as_slice(), chars_of(target.owner()).as_slice()).as_slice())
    }

    /// The bare repository of the target: `owner/repo.git` under the root.
    pub fn repository(&self, target: &VdmGitHubTarget) -> (r: String)
        ensures
            r@ == path_join(path_join(self.root_view(), target@.owner), target@.repo + ".git"@),
    {
        let owner = chars_of(self.owner_dir(target).as_str());
        let name = concat2(chars_of(target.repo()).as_slice(), chars_of(".git").as_slice());
        string_of(path_join_exec(owner.as_slice(), name.as_slice()).as_slice())
    }

    /// The lock file that serializes fetches into the target's repository:
    /// `owner/repo.lock` under the root.
    pub fn lock_path(&self, target: &VdmGitHubTarget) -> (r: String)
        ensures
            r@ == path_join(path_join(self.root_view(), target@.owner), target@.repo + ".lock"@),
    {
        let owner = chars_of(self.owner_dir(target).as_str());
        let name = concat2(chars_of(target.repo()).as_slice(), chars_of(".lock").as_slice());
        string_of(path_join_exec(owner.as_slice(), name.as_slice()).as_slice())
    }
}

/// The URL the target's repository is fetched from.
pub fn github_fetch_url(target: &VdmGitHubTarget) -> (r: String)
    ensures
        r@ == "https://github.com/"@ + target@.owner + seq!['/'] + target@.repo + ".git"@,
{
    let mut v = chars_of("https://github.com/");
    push_all(&mut v, chars_of(target.owner()).as_slice());
    v.push('/');
    push_all(&mut v, chars_of(target.repo()).as_slice());
    push_all(&mut v, chars_of(".git").as_slice());
    assert(v@ =~= "https://github.com/"@ + target@.owner + seq!['/'] + target@.repo + ".git"@);
    string_of(v.as_slice())
}

} // verus!
