//! The local cache of bare Git repositories, and the decisions a fetch into it
//! makes: which remote ref to fetch, which tree paths a glob selects, and how
//! missing blobs are fetched in batches.
use vstd::prelude::*;

use crate::dirs::VdmDirs;
use crate::error::VdmError;
use crate::git::parse::{spec_is_commit_sha, VdmGitSource};
use crate::git::target::{spec_cache_path, spec_glob_pattern, spec_glob_rejected, GitRepositoryView, VdmGitTarget};
use crate::globs::{glob_is_match, glob_matches, glob_usable};
use crate::manifest::target::VdmManifestSourceVersion;
use crate::path::{path_join, path_join_exec};
use crate::sort::{sort_strings, sorted_seqs, sorted_unique_strings, strictly_sorted_seqs, strings_view};
use crate::text::{
    chars_of, concat2, ends_with, eq_chars, find_char, find_char_exec, has_prefix, has_suffix, lines_exec,
    lines_of, slice_chars, starts_with, string_of,
};

verus! {

broadcast use vstd::seq_lib::group_to_multiset_ensures;

/// Where the bare repositories are kept: `git/db` under the local data folder.
#[derive(Debug)]
pub struct VdmGitCache {
    root: String,
}

/// The bare repository of `repository` inside the cache at `root`.
pub open spec fn spec_cache_repository(root: Seq<char>, repository: GitRepositoryView) -> Seq<char> {
    path_join(root, spec_cache_path(repository))
}

/// The lock file beside a bare repository: its `.git` extension replaced by `.lock`.
pub open spec fn spec_lock_beside(repository_path: Seq<char>) -> Seq<char> {
    if has_suffix(repository_path, ".git"@) {
        repository_path.take(repository_path.len() - 4) + ".lock"@
    } else {
        repository_path + ".lock"@
    }
}

impl VdmGitCache {
    /// The folder the repositories are kept in.
    pub closed spec fn root_view(&self) -> Seq<char> {
        self.root@
    }

    /// The cache in the tool's local data folder: `git/db` joined to the folder
    /// that the tool's directories name on this machine.
    pub fn try_new() -> (r: Result<Self, VdmError>)
        ensures
            r matches Err(e) ==> e == VdmError::DataDirUnavailable,
            r matches Ok(c) ==> exists|data_dir: Seq<char>| #[trigger] path_join(data_dir, "git/db"@) == c.root_view(),
    {
        match VdmDirs::resolve() {
            Err(_) => Err(VdmError::DataDirUnavailable),
            Ok(dirs) => {
                let c = Self::from_dirs(&dirs);
                assert(path_join(dirs.data_local_view(), "git/db"@) == c.root_view());
                Ok(c)
            },
        }
    }

    /// The cache in the local data folder of the located directories `dirs`.
    pub fn from_dirs(dirs: &VdmDirs) -> (r: Self)
        ensures
            r.root_view() == path_join(dirs.data_local_view(), "git/db"@),
    {
        Self::in_data_dir(dirs.data_local_dir().as_str())
    }

    /// The cache under the local data folder `data_dir`.
    pub fn in_data_dir(data_dir: &str) -> (r: Self)
        ensures
            r.root_view() == path_join(data_dir@, "git/db"@),
    {
        let db = chars_of("git/db");
        proof {
            reveal_strlit("git/db");
        }
        VdmGitCache { root: string_of(path_join_exec(chars_of(data_dir).as_slice(), db.as_slice()).as_slice()) }
    }

    /// The folder the repositories are kept in.
    pub fn root(&self) -> (r: &str)
        ensures
            r@ == self.root_view(),
    {
        self.root.as_str()
    }

    /// The bare repository of the target's repository.
    pub fn repository(&self, target: &VdmGitTarget) -> (r: String)
        ensures
            r@ == spec_cache_repository(self.root_view(), target@.repository),
    {
        let cache = chars_of(target.cache_path().as_str());
        string_of(path_join_exec(chars_of(self.root.as_str()).as_slice(), cache.as_slice()).as_slice())
    }

    /// The lock file that serializes fetches into the target's repository.
    pub fn lock_path(&self, target: &VdmGitTarget) -> (r: String)
        ensures
            r@ == spec_lock_beside(spec_cache_repository(self.root_view(), target@.repository)),
    {
        let repo = chars_of(self.repository(target).as_str());
        let git = chars_of(".git");
        let lock = chars_of(".lock");
        proof {
            reveal_strlit(".git");
            reveal_strlit(".lock");
        }
        if ends_with(repo.as_slice(), git.as_slice()) {
            let stem = slice_chars(repo.as_slice(), 0, repo.len() - 4);
            string_of(concat2(stem.as_slice(), lock.as_slice()).as_slice())
        } else {
            string_of(concat2(repo.as_slice(), lock.as_slice()).as_slice())
        }
    }
}

/// The ref name of a line of `git ls-remote`: what follows its first tab.
pub open spec fn ref_name_of_line(line: Seq<char>) -> Option<Seq<char>> {
    match find_char(line, '\t') {
        Some(i) => Some(line.skip(i + 1)),
        None => None,
    }
}

/// The ref names of the lines that hold a tab, in order.
pub open spec fn ref_names(lines: Seq<Seq<char>>) -> Seq<Seq<char>>
    decreases lines.len(),
{
    if lines.len() == 0 {
        Seq::empty()
    } else {
        let rest = ref_names(lines.drop_last());
        match ref_name_of_line(lines.last()) {
            Some(n) => rest.push(n),
            None => rest,
        }
    }
}

/// The ref names that the output of `git ls-remote` lists.
pub fn ref_names_of_listing(listing: &str) -> (r: Vec<String>)
    ensures
        strings_view(r@) == ref_names(lines_of(listing@)),
{
    let lines = lines_exec(chars_of(listing).as_slice());
    let ghost lv = lines@.map_values(|v: Vec<char>| v@);
    let mut r: Vec<String> = Vec::new();
    let mut i: usize = 0;
    assert(lv.take(0) =~= Seq::<Seq<char>>::empty());
    assert(strings_view(r@) =~= Seq::<Seq<char>>::empty());
    while i < lines.len()
        invariant
            i <= lines@.len(),
            lv == lines@.map_values(|v: Vec<char>| v@),
            strings_view(r@) == ref_names(lv.take(i as int)),
        decreases lines@.len() - i,
    {
        assert(lv.take(i + 1).drop_last() =~= lv.take(i as int));
        assert(lv.take(i + 1).last() == lines@[i as int]@);
        let line = &lines[i];
        let ghost before = strings_view(r@);
        let len = line.len();
        let found = find_char_exec(line.as_slice(), '\t');
        proof {
            crate::text::lemma_find_char_from_bounds(line@, '\t', 0);
        }
        match found {
            Some(t) => {
                assert(find_char(line@, '\t') == crate::text::find_char_from(line@, '\t', 0));
                assert(t < line@.len());
                let name = slice_chars(line.as_slice(), t + 1, len);
                assert(name@ =~= line@.skip(t + 1));
                r.push(string_of(name.as_slice()));
                assert(strings_view(r@) =~= before.push(name@));
            },
            None => {},
        }
        i += 1;
    }
    assert(lv.take(lv.len() as int) =~= lv);
    r
}

/// The remote ref to fetch for `version`: a full commit SHA as it is, else
/// the branch of that name, else the tag of that name; none when the origin
/// advertises neither.
pub open spec fn spec_select_remote_ref(version: Seq<char>, names: Seq<Seq<char>>) -> Option<Seq<char>> {
    if spec_is_commit_sha(version) {
        Some(version)
    } else if names.contains("refs/heads/"@ + version) {
        Some("refs/heads/"@ + version)
    } else if names.contains("refs/tags/"@ + version) {
        Some("refs/tags/"@ + version)
    } else {
        None
    }
}

fn contains_string(names: &Vec<String>, s: &[char]) -> (r: bool)
    ensures
        r == strings_view(names@).contains(s@),
{
    let mut i: usize = 0;
    while i < names.len()
        invariant
            i <= names@.len(),
            forall|j: int| 0 <= j < i ==> names@[j]@ != s@,
        decreases names@.len() - i,
    {
        if eq_chars(chars_of(names[i].as_str()).as_slice(), s) {
            assert(strings_view(names@)[i as int] == s@);
            return true;
        }
        i += 1;
    }
    proof {
        if strings_view(names@).contains(s@) {
            let j = choose|j: int| 0 <= j < strings_view(names@).len() && strings_view(names@)[j] == s@;
            assert(names@[j]@ == s@);
        }
    }
    false
}

/// Chooses the remote ref to fetch for `version` among the advertised `names`.
pub fn select_remote_ref(version: &VdmManifestSourceVersion, names: &Vec<String>) -> (r: Result<String, VdmError>)
    ensures
        match r {
            Ok(s) => spec_select_remote_ref(version@, strings_view(names@)) == Some(s@),
            Err(e) => spec_select_remote_ref(version@, strings_view(names@)) is None
                && (e matches VdmError::MissingRemoteRef(v) && v@ == version@),
        },
{
    let v = version.to_chars();
    if VdmGitSource::is_commit_sha(v.as_slice()) {
        return Ok(string_of(v.as_slice()));
    }
    let heads = chars_of("refs/heads/");
    let tags = chars_of("refs/tags/");
    proof {
        reveal_strlit("refs/heads/");
        reveal_strlit("refs/tags/");
    }
    let branch = concat2(heads.as_slice(), v.as_slice());
    if contains_string(names, branch.as_slice()) {
        return Ok(string_of(branch.as_slice()));
    }
    let tag = concat2(tags.as_slice(), v.as_slice());
    if contains_string(names, tag.as_slice()) {
        return Ok(string_of(tag.as_slice()));
    }
    Err(VdmError::MissingRemoteRef(version.as_str().to_owned()))
}

/// The branch a line of `git ls-remote --symref` names as `HEAD`.
pub open spec fn head_branch_of_line(line: Seq<char>) -> Option<Seq<char>> {
    let prefix = "ref: refs/heads/"@;
    let suffix = "\tHEAD"@;
    if has_prefix(line, prefix) && has_suffix(line.skip(prefix.len() as int), suffix) {
        Some(line.skip(prefix.len() as int).take(line.len() - prefix.len() - suffix.len()))
    } else {
        None
    }
}

/// The first branch named as `HEAD` among the lines.
pub open spec fn spec_default_branch(lines: Seq<Seq<char>>) -> Option<Seq<char>>
    decreases lines.len(),
{
    if lines.len() == 0 {
        None
    } else {
        match head_branch_of_line(lines[0]) {
            Some(b) => Some(b),
            None => spec_default_branch(lines.skip(1)),
        }
    }
}

/// The default branch that the output of `git ls-remote --symref <url> HEAD` advertises.
pub fn default_branch_of_listing(listing: &str) -> (r: Result<String, VdmError>)
    ensures
        match spec_default_branch(lines_of(listing@)) {
            Some(b) => r matches Ok(s) && s@ == b,
            None => r == Err::<String, VdmError>(VdmError::NoDefaultBranch),
        },
{
    let lines = lines_exec(chars_of(listing).as_slice());
    let ghost lv = lines@.map_values(|v: Vec<char>| v@);
    let prefix = chars_of("ref: refs/heads/");
    let suffix = chars_of("\tHEAD");
    proof {
        reveal_strlit("ref: refs/heads/");
        reveal_strlit("\tHEAD");
        assert(lv.skip(0) =~= lv);
    }
    let mut i: usize = 0;
    while i < lines.len()
        invariant
            i <= lines@.len(),
            lv == lines@.map_values(|v: Vec<char>| v@),
            lv == lines_of(listing@),
            prefix@ == "ref: refs/heads/"@,
            suffix@ == "\tHEAD"@,
            spec_default_branch(lv) == spec_default_branch(lv.skip(i as int)),
        decreases lines@.len() - i,
    {
        let line = &lines[i];
        assert(lv.skip(i as int)[0] == line@);
        assert(lv.skip(i as int).skip(1) =~= lv.skip(i + 1));
        if starts_with(line.as_slice(), prefix.as_slice()) {
            let rest = slice_chars(line.as_slice(), prefix.len(), line.len());
            assert(rest@ =~= line@.skip(prefix@.len() as int));
            if ends_with(rest.as_slice(), suffix.as_slice()) {
                let branch = slice_chars(rest.as_slice(), 0, rest.len() - suffix.len());
                assert(branch@ =~= line@.skip(prefix@.len() as int).take(line@.len() - prefix@.len() - suffix@.len()));
                assert(head_branch_of_line(line@) == Some(branch@));
                assert(spec_default_branch(lv.skip(i as int)) == Some(branch@));
                return Ok(string_of(branch.as_slice()));
            }
        }
        i += 1;
    }
    Err(VdmError::NoDefaultBranch)
}

/// The refspec that fetches `source` into `refs/vdm/fetch`.
pub fn fetch_refspec(source: &str) -> (r: String)
    ensures
        r@ == seq!['+'] + source@ + ":refs/vdm/fetch"@,
{
    let mut v: Vec<char> = vec!['+'];
    crate::text::push_all(&mut v, chars_of(source).as_slice());
    crate::text::push_all(&mut v, chars_of(":refs/vdm/fetch").as_slice());
    assert(v@ =~= seq!['+'] + source@ + ":refs/vdm/fetch"@);
    string_of(v.as_slice())
}

/// The ref that keeps a fetched commit alive in the cache.
pub fn revision_ref(commit: &str) -> (r: String)
    ensures
        r@ == "refs/vdm/revisions/"@ + commit@,
{
    string_of(concat2(chars_of("refs/vdm/revisions/").as_slice(), chars_of(commit).as_slice()).as_slice())
}

/// The paths that the glob `pattern` matches, in order.
pub open spec fn matching_paths(pattern: Seq<char>, paths: Seq<Seq<char>>) -> Seq<Seq<char>>
    decreases paths.len(),
{
    if paths.len() == 0 {
        Seq::empty()
    } else {
        let rest = matching_paths(pattern, paths.drop_last());
        if glob_matches(pattern, paths.last()) {
            rest.push(paths.last())
        } else {
            rest
        }
    }
}

/// The files of a tree that a glob selects, sorted; refused when it selects
/// none, naming the target's `path` and the `commit` of the tree.
pub(crate) fn select_tree_paths(files: &Vec<String>, pattern: &str, path: &str, commit: &str) -> (r: Result<Vec<String>, VdmError>)
    requires
        glob_usable(pattern@),
    ensures
        match r {
            Ok(ps) => matching_paths(pattern@, strings_view(files@)).len() > 0
                && sorted_seqs(strings_view(ps@))
                && strings_view(ps@).to_multiset() == matching_paths(pattern@, strings_view(files@)).to_multiset(),
            Err(e) => matching_paths(pattern@, strings_view(files@)).len() == 0
                && (e matches VdmError::GlobMatchedNothing(p, c) && p@ == path@ && c@ == commit@),
        },
{
    let ghost fv = strings_view(files@);
    let mut matched: Vec<String> = Vec::new();
    let mut i: usize = 0;
    assert(fv.take(0) =~= Seq::<Seq<char>>::empty());
    assert(strings_view(matched@) =~= Seq::<Seq<char>>::empty());
    while i < files.len()
        invariant
            glob_usable(pattern@),
            i <= files@.len(),
            fv == strings_view(files@),
            strings_view(matched@) == matching_paths(pattern@, fv.take(i as int)),
        decreases files@.len() - i,
    {
        assert(fv.take(i + 1).drop_last() =~= fv.take(i as int));
        assert(fv.take(i + 1).last() == files@[i as int]@);
        if glob_is_match(pattern, files[i].as_str()) {
            let ghost before = strings_view(matched@);
            matched.push(files[i].clone());
            assert(strings_view(matched@) =~= before.push(files@[i as int]@));
        }
        i += 1;
    }
    assert(fv.take(fv.len() as int) =~= fv);
    if matched.len() == 0 {
        return Err(VdmError::GlobMatchedNothing(path.to_owned(), commit.to_owned()));
    }
    Ok(sort_strings(matched))
}

/// The files of the tree at `commit` that a target stands for: the files its
/// glob selects, sorted, or else its own path.
pub fn target_tree_paths(target: &VdmGitTarget, files: &Vec<String>, commit: &str) -> (r: Result<Vec<String>, VdmError>)
    ensures
        spec_glob_rejected(target@.path) ==> (r matches Err(VdmError::InvalidGlob(p)) && p@ == target@.path),
        !spec_glob_rejected(target@.path) ==> match spec_glob_pattern(target@.path) {
            None => r matches Ok(ps) && strings_view(ps@) == seq![target@.path],
            Some(p) => match r {
                Ok(ps) => matching_paths(p, strings_view(files@)).len() > 0 && sorted_seqs(strings_view(ps@))
                    && strings_view(ps@).to_multiset() == matching_paths(p, strings_view(files@)).to_multiset(),
                Err(e) => matching_paths(p, strings_view(files@)).len() == 0
                    && (e matches VdmError::GlobMatchedNothing(q, c) && q@ == target@.path && c@ == commit@),
            },
        },
{
    match target.glob() {
        Err(e) => Err(e),
        Ok(Some(pattern)) => select_tree_paths(files, pattern.as_str(), target.path(), commit),
        Ok(None) => {
            let mut v: Vec<String> = Vec::new();
            v.push(target.path().to_owned());
            assert(strings_view(v@) =~= seq![target@.path]);
            Ok(v)
        },
    }
}

/// The pieces of a sequence of batches, laid end to end.
pub open spec fn flatten_batches(batches: Seq<Seq<Seq<char>>>) -> Seq<Seq<char>>
    decreases batches.len(),
{
    if batches.len() == 0 {
        Seq::empty()
    } else {
        flatten_batches(batches.drop_last()) + batches.last()
    }
}

/// The largest number of blobs fetched by one `git fetch`.
pub const BLOB_BATCH: usize = 128;

/// The distinct blob ids, in order, cut into batches of at most
/// [`BLOB_BATCH`] ids for one fetch each; every batch but the last is full.
pub fn blob_batches(ids: Vec<String>) -> (r: Vec<Vec<String>>)
    ensures
        strictly_sorted_seqs(flatten_batches(r@.map_values(|b: Vec<String>| strings_view(b@)))),
        flatten_batches(r@.map_values(|b: Vec<String>| strings_view(b@))).to_set() == strings_view(ids@).to_set(),
        forall|k: int| 0 <= k < r@.len() ==> 0 < #[trigger] r@[k]@.len() <= BLOB_BATCH,
        forall|k: int| 0 <= k < r@.len() - 1 ==> #[trigger] r@[k]@.len() == BLOB_BATCH,
{
    let unique = sorted_unique_strings(ids);
    let ghost uv = strings_view(unique@);
    let mut r: Vec<Vec<String>> = Vec::new();
    let mut batch: Vec<String> = Vec::new();
    let mut i: usize = 0;
    assert(uv.take(0) =~= Seq::<Seq<char>>::empty());
    assert(flatten_batches(r@.map_values(|b: Vec<String>| strings_view(b@))) =~= Seq::<Seq<char>>::empty());
    while i < unique.len()
        invariant
            i <= unique@.len(),
            uv == strings_view(unique@),
            batch@.len() < BLOB_BATCH,
            flatten_batches(r@.map_values(|b: Vec<String>| strings_view(b@))) + strings_view(batch@) == uv.take(i as int),
            forall|k: int| 0 <= k < r@.len() ==> #[trigger] r@[k]@.len() == BLOB_BATCH,
        decreases unique@.len() - i,
    {
        let ghost done = flatten_batches(r@.map_values(|b: Vec<String>| strings_view(b@)));
        let ghost pending = strings_view(batch@);
        batch.push(unique[i].clone());
        assert(strings_view(batch@) =~= pending.push(uv[i as int]));
        assert(uv.take(i + 1) =~= uv.take(i as int).push(uv[i as int]));
        assert(done + strings_view(batch@) =~= uv.take(i + 1));
        if batch.len() == BLOB_BATCH {
            let full = batch;
            batch = Vec::new();
            let ghost fullv = strings_view(full@);
            let ghost old_rv = r@.map_values(|b: Vec<String>| strings_view(b@));
            r.push(full);
            proof {
                let rv = r@.map_values(|b: Vec<String>| strings_view(b@));
                assert(rv =~= old_rv.push(fullv));
                assert(rv.drop_last() =~= old_rv);
                assert(flatten_batches(rv) == flatten_batches(rv.drop_last()) + rv.last());
                assert(strings_view(batch@) =~= Seq::<Seq<char>>::empty());
                assert(flatten_batches(rv) + strings_view(batch@) =~= done + fullv);
            }
        }
        i += 1;
    }
    assert(uv.take(uv.len() as int) =~= uv);
    if batch.len() > 0 {
        let ghost done = flatten_batches(r@.map_values(|b: Vec<String>| strings_view(b@)));
        let ghost last = strings_view(batch@);
        let ghost old_rv = r@.map_values(|b: Vec<String>| strings_view(b@));
        r.push(batch);
        proof {
            let rv = r@.map_values(|b: Vec<String>| strings_view(b@));
            assert(rv =~= old_rv.push(last));
            assert(rv.drop_last() =~= old_rv);
            assert(flatten_batches(rv) == done + last);
        }
    } else {
        assert(strings_view(batch@) =~= Seq::<Seq<char>>::empty());
        assert(flatten_batches(r@.map_values(|b: Vec<String>| strings_view(b@))) =~= uv);
    }
    r
}

} // verus!
