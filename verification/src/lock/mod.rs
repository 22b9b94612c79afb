//! The lock: what was vendored, at which revision and with which content.
pub mod file;

use vstd::prelude::*;

use crate::error::{error_kind, VdmError};
use crate::lock::file::{same_lock_file, LockFileView, VdmLockFile};
use crate::manifest::target::VdmManifestTargetUrl;
use crate::git::target::{spec_glob_pattern, spec_glob_rejected, spec_rebuild, spec_vendor_root, GitRepository, GitRepositoryView};
use crate::lock::file::{path_strip_prefix, strip_path_prefix};
use crate::map::{key_index, UrlMap};
use crate::path::{path_all_normal, path_join, path_join_exec};
use crate::source::input::{
    any_result_view, spec_manifest_input, spec_parse_manifest_target, spec_parse_target_safe, AnyTargetView,
    VdmAnyTarget, VdmSourceInput,
};
use crate::target::VdmTarget;
use crate::text::{chars_of, string_of};

verus! {

/// Whether a reviewed update was taken.
#[derive(Clone, Copy, Debug, PartialEq, Eq, Structural)]
pub enum VdmLockUpdateDecision {
    Accepted,
    Rejected,
}

/// A reviewed update of a target: the versions it went from and to, and the decision.
#[derive(Debug)]
pub struct VdmLockUpdate {
    pub from: Option<String>,
    pub to: Option<String>,
    pub decision: VdmLockUpdateDecision,
}

/// The vendored files by key, the members of each grouped target, and the
/// reviewed updates.
#[derive(Debug)]
pub struct VdmLock {
    pub files: UrlMap<VdmLockFile>,
    pub globs: UrlMap<Vec<VdmManifestTargetUrl>>,
    pub updates: UrlMap<VdmLockUpdate>,
}

/// An entry of the lock document: one file, or the files of a grouped target.
#[derive(Debug)]
pub enum LockEntry {
    File(VdmLockFile),
    Glob(Vec<VdmLockFile>),
}

/// The lock as it is written: each grouped target lists its files under its
/// own key, and only the files of no group stand alone.
#[derive(Debug)]
pub struct LockDocument {
    pub files: UrlMap<LockEntry>,
    pub updates: UrlMap<VdmLockUpdate>,
}

/// The mathematical form of a [`LockEntry`].
pub enum LockEntryView {
    File(LockFileView),
    Glob(Seq<LockFileView>),
}

impl View for LockEntry {
    type V = LockEntryView;

    open spec fn view(&self) -> LockEntryView {
        match self {
            LockEntry::File(f) => LockEntryView::File(f@),
            LockEntry::Glob(fs) => LockEntryView::Glob(fs@.map_values(|f: VdmLockFile| f@)),
        }
    }
}

/// The keys held in a vector.
pub open spec fn keys_view(v: Seq<VdmManifestTargetUrl>) -> Seq<Seq<char>> {
    v.map_values(|k: VdmManifestTargetUrl| k@)
}

/// The locked files as a mathematical map.
pub open spec fn files_map(m: UrlMap<VdmLockFile>) -> Map<Seq<char>, LockFileView> {
    Map::new(|k: Seq<char>| m.lookup(k) is Some, |k: Seq<char>| m.lookup(k)->0@)
}

/// The members of each grouped target as a mathematical map.
pub open spec fn globs_map(m: UrlMap<Vec<VdmManifestTargetUrl>>) -> Map<Seq<char>, Seq<Seq<char>>> {
    Map::new(|k: Seq<char>| m.lookup(k) is Some, |k: Seq<char>| keys_view(m.lookup(k)->0@))
}

/// Why reading a lock stops: an error of the library, or a key recorded
/// twice with different records.
pub enum LockFailure {
    Error(VdmError),
    Conflict(Seq<char>),
}

/// `e` is the error that reports the failure `f`.
pub open spec fn reports_lock_failure(e: VdmError, f: LockFailure) -> bool {
    match f {
        LockFailure::Error(x) => error_kind(e) == x,
        LockFailure::Conflict(k) => e matches VdmError::ConflictingLockEntries(s) && s@ == k,
    }
}

/// Recording `file` at `key`: new keys are added, a key already recorded must
/// carry the very same record.
pub open spec fn spec_insert_file(files: Map<Seq<char>, LockFileView>, key: Seq<char>, file: LockFileView) -> Result<
    Map<Seq<char>, LockFileView>,
    LockFailure,
> {
    if files.contains_key(key) {
        if files[key] == file {
            Ok(files)
        } else {
            Err(LockFailure::Conflict(key))
        }
    } else {
        Ok(files.insert(key, file))
    }
}

/// Recording the same file at the same key twice changes nothing more than
/// recording it once, and a key keeps the first record it was given.
pub proof fn lemma_insert_file_idempotent(files: Map<Seq<char>, LockFileView>, key: Seq<char>, file: LockFileView, other: LockFileView)
    ensures
        spec_insert_file(files, key, file) matches Ok(m) ==> spec_insert_file(m, key, file) == Ok::<
            Map<Seq<char>, LockFileView>,
            LockFailure,
        >(m),
        spec_insert_file(files, key, file) matches Ok(m) ==> (other != file <==> spec_insert_file(m, key, other) is Err),
{
}

/// Records `file` at `key`, refusing a different record already there.
pub fn insert_file(files: &mut UrlMap<VdmLockFile>, key: VdmManifestTargetUrl, file: VdmLockFile) -> (r: Result<
    (),
    VdmError,
>)
    requires
        old(files).wf(),
    ensures
        final(files).wf(),
        match spec_insert_file(files_map(*old(files)), key@, file@) {
            Ok(m) => r is Ok && files_map(*final(files)) == m,
            Err(f) => (r matches Err(e) && reports_lock_failure(e, f)) && files_map(*final(files)) == files_map(*old(files)),
        },
{
    match files.get(&key) {
        Some(existing) => {
            if same_lock_file(existing, &file) {
                Ok(())
            } else {
                Err(VdmError::ConflictingLockEntries(key.as_str().to_owned()))
            }
        },
        None => {
            let ghost k = key@;
            let ghost f = file@;
            let ghost before = files_map(*files);
            files.insert(key, file);
            proof {
                assert(files_map(*files) =~= before.insert(k, f));
            }
            Ok(())
        },
    }
}

/// Some grouped target lists `key` among its members.
pub open spec fn grouped(globs: UrlMap<Vec<VdmManifestTargetUrl>>, key: Seq<char>) -> bool {
    exists|p: int| 0 <= p < globs.values().len() && keys_view(#[trigger] globs.values()[p]@).contains(key)
}

/// The records of the `members` that are locked, in order; members without a
/// record are skipped.
pub open spec fn members_files(files: UrlMap<VdmLockFile>, members: Seq<Seq<char>>) -> Seq<LockFileView>
    decreases members.len(),
{
    if members.len() == 0 {
        Seq::empty()
    } else {
        let rest = members_files(files, members.drop_last());
        match files.lookup(members.last()) {
            Some(f) => rest.push(f@),
            None => rest,
        }
    }
}

/// The document entry at `key`: a grouped target lists the records of its
/// members; a locked file stands alone unless some group holds it.
pub open spec fn spec_document_entry(lock: VdmLock, key: Seq<char>) -> Option<LockEntryView> {
    match lock.globs.lookup(key) {
        Some(ms) => Some(LockEntryView::Glob(members_files(lock.files, keys_view(ms@)))),
        None => match lock.files.lookup(key) {
            Some(f) => if grouped(lock.globs, key) {
                None
            } else {
                Some(LockEntryView::File(f@))
            },
            None => None,
        },
    }
}

/// The view of an optional document entry.
pub open spec fn opt_entry_view(e: Option<LockEntry>) -> Option<LockEntryView> {
    match e {
        Some(e) => Some(e@),
        None => None,
    }
}

spec fn stage_files(lock: VdmLock, key: Seq<char>, i: int) -> Option<LockEntryView> {
    match key_index(lock.files.keys(), key) {
        Some(p) => if p < i && !grouped(lock.globs, key) {
            Some(LockEntryView::File(lock.files.values()[p]@))
        } else {
            None
        },
        None => None,
    }
}

spec fn stage_globs(lock: VdmLock, key: Seq<char>, j: int) -> Option<LockEntryView> {
    match key_index(lock.globs.keys(), key) {
        Some(p) => if p < j {
            Some(LockEntryView::Glob(members_files(lock.files, keys_view(lock.globs.values()[p]@))))
        } else {
            stage_files(lock, key, lock.files.keys().len() as int)
        },
        None => stage_files(lock, key, lock.files.keys().len() as int),
    }
}

/// Whether some grouped target lists `key`.
pub fn is_grouped(globs: &UrlMap<Vec<VdmManifestTargetUrl>>, key: &VdmManifestTargetUrl) -> (r: bool)
    requires
        globs.wf(),
    ensures
        r == grouped(*globs, key@),
{
    proof {
        globs.lemma_same_length();
    }
    let n = globs.len();
    let mut p: usize = 0;
    while p < n
        invariant
            n == globs.keys().len(),
            globs.keys().len() == globs.values().len(),
            p <= n,
            forall|q: int| 0 <= q < p ==> !keys_view(#[trigger] globs.values()[q]@).contains(key@),
        decreases n - p,
    {
        let (_, members) = globs.entry(p);
        let mut j: usize = 0;
        while j < members.len()
            invariant
                p < globs.values().len(),
                *members == globs.values()[p as int],
                j <= members@.len(),
                forall|q: int| 0 <= q < j ==> members@[q]@ != key@,
            decreases members@.len() - j,
        {
            if members[j] == *key {
                proof {
                    assert(keys_view(globs.values()[p as int]@)[j as int] == key@);
                }
                return true;
            }
            j += 1;
        }
        proof {
            assert forall|q: int| 0 <= q < keys_view(globs.values()[p as int]@).len() implies keys_view(globs.values()[p as int]@)[q] != key@ by {
                assert(members@[q]@ != key@);
            }
        }
        p += 1;
    }
    false
}

/// The records of the locked `members`, in order.
fn member_files(files: &UrlMap<VdmLockFile>, members: &Vec<VdmManifestTargetUrl>) -> (r: Vec<VdmLockFile>)
    requires
        files.wf(),
    ensures
        r@.map_values(|f: VdmLockFile| f@) == members_files(*files, keys_view(members@)),
{
    let mut r: Vec<VdmLockFile> = Vec::new();
    let mut j: usize = 0;
    while j < members.len()
        invariant
            files.wf(),
            j <= members@.len(),
            r@.map_values(|f: VdmLockFile| f@) == members_files(*files, keys_view(members@).take(j as int)),
        decreases members@.len() - j,
    {
        assert(keys_view(members@).take(j + 1).drop_last() =~= keys_view(members@).take(j as int));
        assert(keys_view(members@).take(j + 1).last() == members@[j as int]@);
        let ghost before = r@.map_values(|f: VdmLockFile| f@);
        match files.get(&members[j]) {
            Some(f) => {
                r.push(f.duplicate());
                assert(r@.map_values(|f: VdmLockFile| f@) =~= before.push(f@));
            },
            None => {},
        }
        j += 1;
    }
    assert(keys_view(members@).take(members@.len() as int) =~= keys_view(members@));
    r
}

/// The member key of the file `f` listed in the lock array under `key`: the
/// key must read (with the file's version) as a GitHub glob, and the file's
/// path must lie in that repository's vendor folder; the member is the same
/// repository at the path inside it.
#[verifier::opaque]
pub open spec fn spec_glob_member(key: Seq<char>, f: LockFileView) -> Result<Seq<char>, VdmError> {
    match spec_parse_manifest_target(key, f.version) {
        Err(e) => Err(e),
        Ok(AnyTargetView::Http(_)) => Err(VdmError::LockArrayRequiresGitHubTarget),
        Ok(AnyTargetView::Git(t)) => if !(t.repository is GitHub) {
            Err(VdmError::LockArrayRequiresGitHubTarget)
        } else if spec_glob_rejected(t.path) {
            Err(error_kind(VdmError::InvalidGlob(arbitrary())))
        } else if spec_glob_pattern(t.path) is None {
            Err(VdmError::LockArrayKeyNotGlob)
        } else {
            match path_strip_prefix(f.path, path_join("vendor"@, spec_vendor_root(t.repository))) {
                None => Err(VdmError::GlobFileOutsideRepository),
                Some(p) => if path_all_normal(p) {
                    Ok(spec_rebuild(t, p, t.version).key)
                } else {
                    Err(error_kind(VdmError::PathOutsideRepository(arbitrary())))
                },
            }
        },
    }
}

/// Reading the files of the lock array under `key` into `files`: each file is
/// recorded at its member key, in order; the member keys are returned.
pub open spec fn spec_read_glob(key: Seq<char>, fs: Seq<LockFileView>, files: Map<Seq<char>, LockFileView>) -> Result<
    (Map<Seq<char>, LockFileView>, Seq<Seq<char>>),
    LockFailure,
>
    decreases fs.len(),
{
    if fs.len() == 0 {
        Ok((files, Seq::empty()))
    } else {
        match spec_read_glob(key, fs.drop_last(), files) {
            Err(e) => Err(e),
            Ok((fm, ms)) => match spec_glob_member(key, fs.last()) {
                Err(e) => Err(LockFailure::Error(e)),
                Ok(m) => match spec_insert_file(fm, m, fs.last()) {
                    Err(e) => Err(e),
                    Ok(fm2) => Ok((fm2, ms.push(m))),
                },
            },
        }
    }
}

/// Reading the entries of a lock document, in key order, into the locked
/// files and the members of each grouped target.
pub open spec fn spec_read_entries(entries: Seq<(Seq<char>, LockEntryView)>) -> Result<
    (Map<Seq<char>, LockFileView>, Map<Seq<char>, Seq<Seq<char>>>),
    LockFailure,
>
    decreases entries.len(),
{
    if entries.len() == 0 {
        Ok((Map::empty(), Map::empty()))
    } else {
        match spec_read_entries(entries.drop_last()) {
            Err(e) => Err(e),
            Ok((fm, gm)) => match entries.last().1 {
                LockEntryView::File(f) => match spec_insert_file(fm, entries.last().0, f) {
                    Err(e) => Err(e),
                    Ok(fm2) => Ok((fm2, gm)),
                },
                LockEntryView::Glob(fs) => match spec_read_glob(entries.last().0, fs, fm) {
                    Err(e) => Err(e),
                    Ok((fm2, ms)) => Ok((fm2, gm.insert(entries.last().0, ms))),
                },
            },
        }
    }
}

/// The entries of a lock document, in key order.
pub open spec fn document_entries(m: UrlMap<LockEntry>) -> Seq<(Seq<char>, LockEntryView)> {
    Seq::new(m.keys().len(), |i: int| (m.keys()[i], m.values()[i]@))
}

/// Reading every array entry of the document is free of the panic in `git2`.
pub open spec fn document_safe(m: UrlMap<LockEntry>) -> bool {
    forall|i: int| 0 <= i < m.values().len() ==> entry_safe(m.keys()[i], #[trigger] m.values()[i])
}

/// Reading the files of an array entry under `key` is free of the panic in `git2`.
pub open spec fn entry_safe(key: Seq<char>, e: LockEntry) -> bool {
    match e {
        LockEntry::File(_) => true,
        LockEntry::Glob(fs) => forall|j: int| 0 <= j < fs@.len() ==> spec_parse_target_safe(
            spec_manifest_input(key, #[trigger] fs@[j].version@),
        ),
    }
}

/// The member key of a file listed in the lock array under `key`.
fn glob_member(key: &VdmManifestTargetUrl, file: &VdmLockFile) -> (r: Result<VdmManifestTargetUrl, VdmError>)
    requires
        spec_parse_target_safe(spec_manifest_input(key@, file.version@)),
    ensures
        match r {
            Ok(m) => spec_glob_member(key@, file@) == Ok::<Seq<char>, VdmError>(m@),
            Err(e) => spec_glob_member(key@, file@) == Err::<Seq<char>, VdmError>(error_kind(e)),
        },
{
    proof {
        reveal(spec_glob_member);
    }
    let target = match VdmSourceInput::parse_manifest_target(key, &file.version) {
        Err(e) => return Err(e),
        Ok(VdmAnyTarget::Http(_)) => return Err(VdmError::LockArrayRequiresGitHubTarget),
        Ok(VdmAnyTarget::Git(t)) => t,
    };
    match target.repository() {
        GitRepository::GitHub { .. } => {},
        GitRepository::Url(_) => return Err(VdmError::LockArrayRequiresGitHubTarget),
    }
    match target.glob() {
        Err(e) => return Err(e),
        Ok(None) => return Err(VdmError::LockArrayKeyNotGlob),
        Ok(Some(_)) => {},
    }
    let vendor = chars_of("vendor");
    proof {
        reveal_strlit("vendor");
    }
    let root = chars_of(target.vendor_root().as_str());
    let prefix = string_of(path_join_exec(vendor.as_slice(), root.as_slice()).as_slice());
    let inside = match strip_path_prefix(file.path.as_str(), prefix.as_str()) {
        None => return Err(VdmError::GlobFileOutsideRepository),
        Some(p) => p,
    };
    match target.with_path(inside.as_str()) {
        Err(e) => Err(e),
        Ok(member) => Ok(member.key().clone()),
    }
}

/// Records the files of the lock array under `key`, each at its member key,
/// and returns the member keys.
#[verifier::rlimit(50)]
fn read_glob(key: &VdmManifestTargetUrl, fs: &Vec<VdmLockFile>, files: &mut UrlMap<VdmLockFile>) -> (r: Result<
    Vec<VdmManifestTargetUrl>,
    VdmError,
>)
    requires
        old(files).wf(),
        forall|j: int| 0 <= j < fs@.len() ==> spec_parse_target_safe(spec_manifest_input(key@, #[trigger] fs@[j].version@)),
    ensures
        final(files).wf(),
        match spec_read_glob(key@, fs@.map_values(|f: VdmLockFile| f@), files_map(*old(files))) {
            Ok((fm, ms)) => match r {
                Ok(members) => files_map(*final(files)) == fm && keys_view(members@) == ms,
                Err(_) => false,
            },
            Err(f) => r matches Err(e) && reports_lock_failure(e, f),
        },
{
    let ghost fsv = fs@.map_values(|f: VdmLockFile| f@);
    let ghost start = files_map(*files);
    let mut members: Vec<VdmManifestTargetUrl> = Vec::new();
    let mut j: usize = 0;
    assert(fsv.take(0) =~= Seq::<LockFileView>::empty());
    assert(keys_view(members@) =~= Seq::<Seq<char>>::empty());
    while j < fs.len()
        invariant
            forall|j: int| 0 <= j < fs@.len() ==> spec_parse_target_safe(spec_manifest_input(key@, #[trigger] fs@[j].version@)),
            fsv == fs@.map_values(|f: VdmLockFile| f@),
            start == files_map(*old(files)),
            j <= fs@.len(),
            files.wf(),
            spec_read_glob(key@, fsv.take(j as int), start) == Ok::<(Map<Seq<char>, LockFileView>, Seq<Seq<char>>), LockFailure>((files_map(*files), keys_view(members@))),
        decreases fs@.len() - j,
    {
        assert(fsv.take(j + 1).drop_last() =~= fsv.take(j as int));
        assert(fsv.take(j + 1).last() == fs@[j as int]@);
        assert(spec_parse_target_safe(spec_manifest_input(key@, fs@[j as int].version@)));
        let member = match glob_member(key, &fs[j]) {
            Err(e) => {
                proof {
                    lemma_glob_error_stays(key@, fsv, start, j as int + 1);
                    assert(fsv.take(fsv.len() as int) =~= fsv);
                }
                return Err(e);
            },
            Ok(m) => m,
        };
        let ghost mv = member@;
        let ghost old_ks = keys_view(members@);
        let ghost fm = files_map(*files);
        let copy = fs[j].duplicate();
        assert(copy@ == fsv.take(j + 1).last());
        match insert_file(files, member.clone(), copy) {
            Err(e) => {
                proof {
                    lemma_glob_error_stays(key@, fsv, start, j as int + 1);
                    assert(fsv.take(fsv.len() as int) =~= fsv);
                }
                return Err(e);
            },
            Ok(()) => {},
        }
        members.push(member);
        proof {
            assert(keys_view(members@) =~= old_ks.push(mv));
            assert(spec_glob_member(key@, fsv.take(j + 1).last()) == Ok::<Seq<char>, VdmError>(mv));
            assert(spec_insert_file(fm, mv, fsv.take(j + 1).last()) == Ok::<Map<Seq<char>, LockFileView>, LockFailure>(files_map(*files)));
        }
        j += 1;
    }
    assert(fsv.take(fsv.len() as int) =~= fsv);
    Ok(members)
}

impl VdmLockUpdate {
    /// A copy of the update.
    pub fn duplicate(&self) -> (r: VdmLockUpdate)
        ensures
            r.from == self.from,
            r.to == self.to,
            r.decision == self.decision,
    {
        let from = match &self.from {
            Some(s) => Some(s.clone()),
            None => None,
        };
        let to = match &self.to {
            Some(s) => Some(s.clone()),
            None => None,
        };
        VdmLockUpdate { from, to, decision: self.decision }
    }
}

/// Once reading the entries fails it stays failed.
proof fn lemma_read_error_stays(es: Seq<(Seq<char>, LockEntryView)>, n: int)
    requires
        0 <= n <= es.len(),
        spec_read_entries(es.take(n)) is Err,
    ensures
        spec_read_entries(es) == spec_read_entries(es.take(n)),
    decreases es.len() - n,
{
    if n < es.len() {
        assert(es.take(n + 1).drop_last() =~= es.take(n));
        lemma_read_error_stays(es, n + 1);
    } else {
        assert(es.take(n) =~= es);
    }
}

/// Once reading an array fails, reading the whole document fails the same way.
proof fn lemma_glob_error_stays(key: Seq<char>, fs: Seq<LockFileView>, files: Map<Seq<char>, LockFileView>, n: int)
    requires
        0 <= n <= fs.len(),
        spec_read_glob(key, fs.take(n), files) is Err,
    ensures
        spec_read_glob(key, fs, files) == spec_read_glob(key, fs.take(n), files),
    decreases fs.len() - n,
{
    if n < fs.len() {
        assert(fs.take(n + 1).drop_last() =~= fs.take(n));
        lemma_glob_error_stays(key, fs, files, n + 1);
    } else {
        assert(fs.take(n) =~= fs);
    }
}

impl VdmLock {
    /// An empty lock.
    pub fn new() -> (r: VdmLock)
        ensures
            r.wf(),
            r.files.keys() == Seq::<Seq<char>>::empty(),
            r.globs.keys() == Seq::<Seq<char>>::empty(),
            r.updates.keys() == Seq::<Seq<char>>::empty(),
    {
        VdmLock { files: UrlMap::new(), globs: UrlMap::new(), updates: UrlMap::new() }
    }

    /// The document form of the lock: every grouped target lists the records
    /// of its members under its own key, and the other records stand alone.
    pub fn to_document(self) -> (doc: LockDocument)
        requires
            self.wf(),
        ensures
            doc.files.wf(),
            doc.updates == self.updates,
            forall|k: Seq<char>| opt_entry_view(#[trigger] doc.files.lookup(k)) == spec_document_entry(self, k),
    {
        let ghost lock = self;
        proof {
            self.files.lemma_same_length();
            self.globs.lemma_same_length();
        }
        let mut entries: UrlMap<LockEntry> = UrlMap::new();
        proof {
            assert forall|k: Seq<char>| opt_entry_view(#[trigger] entries.lookup(k)) == stage_files(lock, k, 0) by {
                assert(key_index(entries.keys(), k) is None);
                crate::map::lemma_key_index_in_range(self.files.keys(), k);
            }
        }
        let n = self.files.len();
        let mut i: usize = 0;
        while i < n
            invariant
                lock == self,
                self.wf(),
                n == self.files.keys().len(),
                self.files.keys().len() == self.files.values().len(),
                i <= n,
                entries.wf(),
                forall|k: Seq<char>| opt_entry_view(#[trigger] entries.lookup(k)) == stage_files(lock, k, i as int),
            decreases n - i,
        {
            let (key, file) = self.files.entry(i);
            let ghost kv = key@;
            proof {
                crate::map::lemma_sorted_index(self.files.keys(), kv, i as int);
            }
            if !is_grouped(&self.globs, key) {
                let ghost before = entries;
                entries.insert(key.clone(), LockEntry::File(file.duplicate()));
                proof {
                    assert forall|k: Seq<char>| opt_entry_view(#[trigger] entries.lookup(k)) == stage_files(lock, k, i + 1) by {
                        crate::map::lemma_key_index_in_range(self.files.keys(), k);
                        if k != kv {
                            assert(entries.lookup(k) == before.lookup(k));
                        }
                    }
                }
            } else {
                proof {
                    assert forall|k: Seq<char>| opt_entry_view(#[trigger] entries.lookup(k)) == stage_files(lock, k, i + 1) by {
                        crate::map::lemma_key_index_in_range(self.files.keys(), k);
                    }
                }
            }
            i += 1;
        }
        let g = self.globs.len();
        proof {
            assert forall|k: Seq<char>| opt_entry_view(#[trigger] entries.lookup(k)) == stage_globs(lock, k, 0) by {
                crate::map::lemma_key_index_in_range(self.globs.keys(), k);
            }
        }
        let mut j: usize = 0;
        while j < g
            invariant
                lock == self,
                self.wf(),
                g == self.globs.keys().len(),
                self.globs.keys().len() == self.globs.values().len(),
                n == self.files.keys().len(),
                j <= g,
                entries.wf(),
                forall|k: Seq<char>| opt_entry_view(#[trigger] entries.lookup(k)) == stage_globs(lock, k, j as int),
            decreases g - j,
        {
            let (key, members) = self.globs.entry(j);
            let ghost kv = key@;
            proof {
                crate::map::lemma_sorted_index(self.globs.keys(), kv, j as int);
            }
            let listed = member_files(&self.files, members);
            let ghost before = entries;
            entries.insert(key.clone(), LockEntry::Glob(listed));
            proof {
                assert forall|k: Seq<char>| opt_entry_view(#[trigger] entries.lookup(k)) == stage_globs(lock, k, j + 1) by {
                    crate::map::lemma_key_index_in_range(self.globs.keys(), k);
                    if k != kv {
                        assert(entries.lookup(k) == before.lookup(k));
                    }
                }
            }
            j += 1;
        }
        proof {
            assert forall|k: Seq<char>| opt_entry_view(#[trigger] entries.lookup(k)) == spec_document_entry(lock, k) by {
                crate::map::lemma_key_index_in_range(self.globs.keys(), k);
                crate::map::lemma_key_index_in_range(self.files.keys(), k);
                assert(opt_entry_view(entries.lookup(k)) == stage_globs(lock, k, g as int));
            }
        }
        LockDocument { files: entries, updates: self.updates }
    }

    /// Reads a lock document back: standalone files are recorded at their
    /// keys, and each array is read as the files of a grouped GitHub target,
    /// each recorded at its member key; a key recorded twice must carry the
    /// same record.
    pub fn from_document(doc: LockDocument) -> (r: Result<VdmLock, VdmError>)
        requires
            doc.files.wf(),
            doc.updates.wf(),
            document_safe(doc.files),
        ensures
            match spec_read_entries(document_entries(doc.files)) {
                Ok((fm, gm)) => match r {
                    Ok(lock) => lock.wf() && files_map(lock.files) == fm && globs_map(lock.globs) == gm
                        && lock.updates == doc.updates,
                    Err(_) => false,
                },
                Err(f) => r matches Err(e) && reports_lock_failure(e, f),
            },
    {
        let ghost es = document_entries(doc.files);
        proof {
            doc.files.lemma_same_length();
        }
        let mut files: UrlMap<VdmLockFile> = UrlMap::new();
        let mut globs: UrlMap<Vec<VdmManifestTargetUrl>> = UrlMap::new();
        proof {
            assert(files_map(files) =~= Map::<Seq<char>, LockFileView>::empty()) by {
                assert forall|k: Seq<char>| files.lookup(k) is None by {
                    assert(key_index(files.keys(), k) is None);
                }
            }
            assert(globs_map(globs) =~= Map::<Seq<char>, Seq<Seq<char>>>::empty()) by {
                assert forall|k: Seq<char>| globs.lookup(k) is None by {
                    assert(key_index(globs.keys(), k) is None);
                }
            }
            assert(es.take(0) =~= Seq::<(Seq<char>, LockEntryView)>::empty());
        }
        let n = doc.files.len();
        let mut i: usize = 0;
        while i < n
            invariant
                n == doc.files.keys().len(),
                doc.files.keys().len() == doc.files.values().len(),
                es == document_entries(doc.files),
                document_safe(doc.files),
                i <= n,
                files.wf(),
                globs.wf(),
                spec_read_entries(es.take(i as int)) == Ok::<(Map<Seq<char>, LockFileView>, Map<Seq<char>, Seq<Seq<char>>>), LockFailure>((files_map(files), globs_map(globs))),
            decreases n - i,
        {
            assert(es.take(i + 1).drop_last() =~= es.take(i as int));
            assert(es.take(i + 1).last() == es[i as int]);
            let (key, entry) = doc.files.entry(i);
            match entry {
                LockEntry::File(f) => {
                    match insert_file(&mut files, key.clone(), f.duplicate()) {
                        Err(e) => {
                            proof {
                                lemma_read_error_stays(es, i as int + 1);
                                assert(es.take(n as int) =~= es);
                            }
                            return Err(e);
                        },
                        Ok(()) => {},
                    }
                },
                LockEntry::Glob(fs) => {
                    proof {
                        assert(entry_safe(doc.files.keys()[i as int], doc.files.values()[i as int]));
                    }
                    let members = match read_glob(key, fs, &mut files) {
                        Err(e) => {
                            proof {
                                assert(spec_read_entries(es.take(i + 1)) is Err);
                                lemma_read_error_stays(es, i as int + 1);
                                assert(es.take(n as int) =~= es);
                            }
                            return Err(e);
                        },
                        Ok(members) => members,
                    };
                    let ghost kv = key@;
                    let ghost ms = keys_view(members@);
                    let ghost before = globs_map(globs);
                    globs.insert(key.clone(), members);
                    proof {
                        assert(globs_map(globs) =~= before.insert(kv, ms));
                    }
                },
            }
            i += 1;
        }
        assert(es.take(n as int) =~= es);
        Ok(VdmLock { files, globs, updates: doc.updates })
    }

    /// The lock's maps are well formed.
    pub open spec fn wf(&self) -> bool {
        &&& self.files.wf()
        &&& self.globs.wf()
        &&& self.updates.wf()
    }
}

/// The groups of `lock` read back from its document: every member of every
/// group is locked, and the record of each member, read under its group's key,
/// gives back that member; and no group's key is itself a locked file.
pub open spec fn groups_read_back(lock: VdmLock) -> bool {
    &&& forall|g: Seq<char>, m: Seq<char>|
        lock.globs.lookup(g) is Some && #[trigger] keys_view(lock.globs.lookup(g)->0@).contains(m) ==> lock.files.lookup(
            m,
        ) is Some && spec_glob_member(g, lock.files.lookup(m)->0@) == Ok::<Seq<char>, VdmError>(m)
    &&& forall|g: Seq<char>| #[trigger] lock.globs.lookup(g) is Some ==> lock.files.lookup(g) is None
}

/// The records of `files` at the keys already read, together with those of
/// the `members`.
spec fn with_members(files: UrlMap<VdmLockFile>, read: Map<Seq<char>, LockFileView>, members: Seq<Seq<char>>) -> Map<
    Seq<char>,
    LockFileView,
> {
    Map::new(|x: Seq<char>| read.contains_key(x) || members.contains(x), |x: Seq<char>| files.lookup(x)->0@)
}

proof fn lemma_read_glob_members(
    key: Seq<char>,
    files: UrlMap<VdmLockFile>,
    members: Seq<Seq<char>>,
    read: Map<Seq<char>, LockFileView>,
)
    requires
        forall|m: Seq<char>| #[trigger] members.contains(m) ==> files.lookup(m) is Some && spec_glob_member(
            key,
            files.lookup(m)->0@,
        ) == Ok::<Seq<char>, VdmError>(m),
        forall|x: Seq<char>| #[trigger] read.contains_key(x) ==> files.lookup(x) is Some && read[x] == files.lookup(x)->0@,
    ensures
        spec_read_glob(key, members_files(files, members), read) == Ok::<
            (Map<Seq<char>, LockFileView>, Seq<Seq<char>>),
            LockFailure,
        >((with_members(files, read, members), members)),
    decreases members.len(),
{
    if members.len() == 0 {
        assert(with_members(files, read, members) =~= read);
        assert(members =~= Seq::<Seq<char>>::empty());
        assert(members_files(files, members) =~= Seq::<LockFileView>::empty());
    } else {
        let rest = members.drop_last();
        let m = members.last();
        assert(members.contains(m));
        assert forall|x: Seq<char>| #[trigger] rest.contains(x) implies members.contains(x) by {
            let i = choose|i: int| 0 <= i < rest.len() && rest[i] == x;
            assert(members[i] == x);
        }
        lemma_read_glob_members(key, files, rest, read);
        let fs = members_files(files, members);
        let f = files.lookup(m)->0@;
        assert(fs == members_files(files, rest).push(f));
        assert(fs.drop_last() =~= members_files(files, rest));
        assert(fs.last() == f);
        let before = with_members(files, read, rest);
        assert(spec_read_glob(key, fs.drop_last(), read) == Ok::<
            (Map<Seq<char>, LockFileView>, Seq<Seq<char>>),
            LockFailure,
        >((before, rest)));
        assert(spec_glob_member(key, fs.last()) == Ok::<Seq<char>, VdmError>(m));
        assert(before.contains_key(m) ==> before[m] == f);
        let after = with_members(files, read, members);
        assert forall|x: Seq<char>| #[trigger] members.contains(x) <==> (rest.contains(x) || x == m) by {
            if members.contains(x) {
                let i = choose|i: int| 0 <= i < members.len() && members[i] == x;
                if i < members.len() - 1 {
                    assert(rest[i] == x);
                }
            }
        }
        assert forall|x: Seq<char>| #[trigger] after.contains_key(x) <==> (before.contains_key(x) || x == m) by {
            assert(members.contains(x) <==> (rest.contains(x) || x == m));
        }
        if before.contains_key(m) {
            assert(after =~= before);
            assert(spec_insert_file(before, m, f) == Ok::<Map<Seq<char>, LockFileView>, LockFailure>(after));
        } else {
            assert(after =~= before.insert(m, f));
            assert(spec_insert_file(before, m, f) == Ok::<Map<Seq<char>, LockFileView>, LockFailure>(after));
        }
        assert(rest.push(m) =~= members);
        assert(spec_read_glob(key, fs, read) == Ok::<
            (Map<Seq<char>, LockFileView>, Seq<Seq<char>>),
            LockFailure,
        >((after, members)));
    }
}

/// The keys of the document entries before `k` cover `x`: a standalone
/// entry at `x`, or a group entry that lists `x`.
spec fn covered(lock: VdmLock, keys: Seq<Seq<char>>, k: int, x: Seq<char>) -> bool {
    exists|j: int|
        0 <= j < k && #[trigger] covers(lock, keys[j], x)
}

spec fn covers(lock: VdmLock, key: Seq<char>, x: Seq<char>) -> bool {
    match lock.globs.lookup(key) {
        Some(ms) => keys_view(ms@).contains(x),
        None => key == x,
    }
}

/// The records read from the first `k` document entries.
spec fn files_read(lock: VdmLock, keys: Seq<Seq<char>>, k: int) -> Map<Seq<char>, LockFileView> {
    Map::new(
        |x: Seq<char>| lock.files.lookup(x) is Some && covered(lock, keys, k, x),
        |x: Seq<char>| lock.files.lookup(x)->0@,
    )
}

/// The groups read from the first `k` document entries.
spec fn globs_read(lock: VdmLock, keys: Seq<Seq<char>>, k: int) -> Map<Seq<char>, Seq<Seq<char>>> {
    Map::new(
        |g: Seq<char>| lock.globs.lookup(g) is Some && exists|j: int| 0 <= j < k && keys[j] == g,
        |g: Seq<char>| keys_view(lock.globs.lookup(g)->0@),
    )
}

#[verifier::rlimit(50)]
proof fn lemma_read_prefix(lock: VdmLock, doc: LockDocument, k: int)
    requires
        lock.wf(),
        doc.files.wf(),
        forall|x: Seq<char>| opt_entry_view(#[trigger] doc.files.lookup(x)) == spec_document_entry(lock, x),
        groups_read_back(lock),
        0 <= k <= doc.files.keys().len(),
    ensures
        spec_read_entries(document_entries(doc.files).take(k)) == Ok::<
            (Map<Seq<char>, LockFileView>, Map<Seq<char>, Seq<Seq<char>>>),
            LockFailure,
        >((files_read(lock, doc.files.keys(), k), globs_read(lock, doc.files.keys(), k))),
    decreases k,
{
    let keys = doc.files.keys();
    let es = document_entries(doc.files);
    if k == 0 {
        assert(es.take(0) =~= Seq::<(Seq<char>, LockEntryView)>::empty());
        assert(files_read(lock, keys, 0) =~= Map::<Seq<char>, LockFileView>::empty());
        assert(globs_read(lock, keys, 0) =~= Map::<Seq<char>, Seq<Seq<char>>>::empty());
    } else {
        let j = k - 1;
        lemma_read_prefix(lock, doc, j);
        assert(es.take(k).drop_last() =~= es.take(j));
        let key = keys[j];
        crate::map::lemma_sorted_index(keys, key, j);
        assert(doc.files.lookup(key) == Some(doc.files.values()[j]));
        let entry = doc.files.values()[j]@;
        assert(es.take(k).last() == (key, entry));
        assert(Some(entry) == spec_document_entry(lock, key));
        let fr = files_read(lock, keys, j);
        let gr = globs_read(lock, keys, j);
        let fr2 = files_read(lock, keys, k);
        let gr2 = globs_read(lock, keys, k);
        assert forall|x: Seq<char>| covered(lock, keys, k, x) <==> (covered(lock, keys, j, x) || covers(lock, key, x)) by {
            if covered(lock, keys, k, x) {
                let i = choose|i: int| 0 <= i < k && #[trigger] covers(lock, keys[i], x);
                if i < j {
                    assert(covers(lock, keys[i], x));
                }
            }
            if covered(lock, keys, j, x) {
                let i = choose|i: int| 0 <= i < j && #[trigger] covers(lock, keys[i], x);
                assert(covers(lock, keys[i], x));
            }
        }
        match lock.globs.lookup(key) {
            None => {
                let f = lock.files.lookup(key)->0@;
                assert(lock.files.lookup(key) is Some);
                assert(entry == LockEntryView::File(f));
                assert forall|g: Seq<char>| #[trigger] gr2.contains_key(g) <==> gr.contains_key(g) by {
                    if gr2.contains_key(g) {
                        let i = choose|i: int| 0 <= i < k && keys[i] == g;
                        if i == j {
                            assert(lock.globs.lookup(g) is None);
                        }
                    }
                }
                assert(gr2 =~= gr);
                assert forall|x: Seq<char>| #[trigger] fr2.contains_key(x) <==> (fr.contains_key(x) || x == key) by {
                    assert(covered(lock, keys, k, x) <==> (covered(lock, keys, j, x) || covers(lock, key, x)));
                }
                if fr.contains_key(key) {
                    assert(fr2 =~= fr);
                } else {
                    assert(fr2 =~= fr.insert(key, f));
                }
            },
            Some(ms) => {
                let members = keys_view(ms@);
                assert(entry == LockEntryView::Glob(members_files(lock.files, members)));
                assert forall|m: Seq<char>| #[trigger] members.contains(m) implies lock.files.lookup(m) is Some
                    && spec_glob_member(key, lock.files.lookup(m)->0@) == Ok::<Seq<char>, VdmError>(m) by {
                    assert(keys_view(lock.globs.lookup(key)->0@).contains(m));
                }
                lemma_read_glob_members(key, lock.files, members, fr);
                assert forall|x: Seq<char>| #[trigger] fr2.contains_key(x) <==> (fr.contains_key(x) || members.contains(x)) by {
                    assert(covered(lock, keys, k, x) <==> (covered(lock, keys, j, x) || covers(lock, key, x)));
                    if members.contains(x) {
                        assert(lock.files.lookup(x) is Some);
                    }
                }
                let wm = with_members(lock.files, fr, members);
                assert forall|x: Seq<char>| #[trigger] wm.contains_key(x) <==> fr2.contains_key(x) by {
                    assert(fr2.contains_key(x) <==> (fr.contains_key(x) || members.contains(x)));
                }
                assert forall|x: Seq<char>| #[trigger] wm.contains_key(x) implies wm[x] == fr2[x] by {
                    assert(fr2.contains_key(x));
                }
                assert(wm =~= fr2);
                assert(gr2 =~= gr.insert(key, members));
            },
        }
    }
}

/// Writing a lock as its document and reading the document back gives the
/// same locked files and the same groups, whenever the groups read back: each
/// member of a group is locked and its record, read under the group's key,
/// names that member again, and no group's key is a locked file.
pub proof fn lemma_document_round_trip(lock: VdmLock, doc: LockDocument)
    requires
        lock.wf(),
        doc.files.wf(),
        forall|k: Seq<char>| opt_entry_view(#[trigger] doc.files.lookup(k)) == spec_document_entry(lock, k),
        groups_read_back(lock),
    ensures
        spec_read_entries(document_entries(doc.files)) == Ok::<
            (Map<Seq<char>, LockFileView>, Map<Seq<char>, Seq<Seq<char>>>),
            LockFailure,
        >((files_map(lock.files), globs_map(lock.globs))),
{
    let keys = doc.files.keys();
    let n = keys.len() as int;
    let es = document_entries(doc.files);
    lemma_read_prefix(lock, doc, n);
    assert(es.take(n) =~= es);
    assert forall|x: Seq<char>| #[trigger] lock.files.lookup(x) is Some implies covered(lock, keys, n, x) by {
        let g_index = choose|p: int| 0 <= p < lock.globs.values().len() && keys_view(#[trigger] lock.globs.values()[p]@).contains(x);
        if grouped(lock.globs, x) {
            let p = choose|p: int| 0 <= p < lock.globs.values().len() && keys_view(#[trigger] lock.globs.values()[p]@).contains(x);
            let g = lock.globs.keys()[p];
            crate::map::lemma_sorted_index(lock.globs.keys(), g, p);
            assert(lock.globs.lookup(g) == Some(lock.globs.values()[p]));
            assert(spec_document_entry(lock, g) is Some);
            assert(doc.files.lookup(g) is Some);
            crate::map::lemma_key_index_in_range(keys, g);
            let j = key_index(keys, g)->0;
            assert(covers(lock, keys[j], x));
        } else {
            assert(lock.globs.lookup(x) is None);
            assert(spec_document_entry(lock, x) is Some);
            assert(doc.files.lookup(x) is Some);
            crate::map::lemma_key_index_in_range(keys, x);
            let j = key_index(keys, x)->0;
            assert(covers(lock, keys[j], x));
        }
    }
    assert(files_read(lock, keys, n) =~= files_map(lock.files));
    assert forall|g: Seq<char>| #[trigger] lock.globs.lookup(g) is Some implies exists|j: int| 0 <= j < n && keys[j] == g by {
        assert(spec_document_entry(lock, g) is Some);
        assert(doc.files.lookup(g) is Some);
        crate::map::lemma_key_index_in_range(keys, g);
    }
    assert(globs_read(lock, keys, n) =~= globs_map(lock.globs));
}

} // verus!
