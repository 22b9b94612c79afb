//! Reviewed updates: the changes an update would make to the vendored files,
//! offered one by one, and the lock once the accepted ones are applied.
use vstd::multiset::Multiset;
use vstd::prelude::*;

use crate::lock::file::{same_lock_file, LockFileView, VdmLockFile};
use crate::lock::{files_map, globs_map, keys_view, VdmLock, VdmLockUpdate, VdmLockUpdateDecision};
use crate::map::UrlMap;
use crate::sort::strictly_sorted_seqs;
use crate::manifest::target::VdmManifestTargetUrl;
use crate::map::{lemma_seq_lt_asymmetric, lemma_seq_lt_total, lemma_seq_lt_transitive, order_chars, seq_lt, KeyOrder};
use crate::text::chars_of;
use crate::vendor::{contains_key, reachable, spec_reachable};

verus! {

broadcast use vstd::seq_lib::group_to_multiset_ensures;

/// A change offered for review: the file at `key`, written at `path`, with its
/// lock record before the update (if any) and after it (none when the update
/// removes the file), and whether the change was accepted.
#[derive(Debug)]
pub struct VdmReviewFile {
    pub key: VdmManifestTargetUrl,
    pub path: String,
    pub old: Option<VdmLockFile>,
    pub next: Option<VdmLockFile>,
    pub accepted: bool,
}

/// The mathematical form of a [`VdmReviewFile`].
pub struct ReviewFileView {
    pub key: Seq<char>,
    pub path: Seq<char>,
    pub old: Option<LockFileView>,
    pub next: Option<LockFileView>,
    pub accepted: bool,
}

/// The view of an optional record.
pub open spec fn opt_file_view(o: Option<VdmLockFile>) -> Option<LockFileView> {
    match o {
        Some(f) => Some(f@),
        None => None,
    }
}

impl View for VdmReviewFile {
    type V = ReviewFileView;

    open spec fn view(&self) -> ReviewFileView {
        ReviewFileView {
            key: self.key@,
            path: self.path@,
            old: opt_file_view(self.old),
            next: opt_file_view(self.next),
            accepted: self.accepted,
        }
    }
}

/// The views of the review files.
pub open spec fn reviews_view(v: Seq<VdmReviewFile>) -> Seq<ReviewFileView> {
    v.map_values(|f: VdmReviewFile| f@)
}

/// The records an update would write, by key.
pub open spec fn records_view(v: Seq<(VdmManifestTargetUrl, VdmLockFile)>) -> Seq<(Seq<char>, LockFileView)> {
    v.map_values(|r: (VdmManifestTargetUrl, VdmLockFile)| (r.0@, r.1@))
}

/// The record at `key`, if there is one.
pub open spec fn record_at(files: Map<Seq<char>, LockFileView>, key: Seq<char>) -> Option<LockFileView> {
    if files.contains_key(key) {
        Some(files[key])
    } else {
        None
    }
}

/// The records of `files` with each of `records` set, in order.
pub open spec fn spec_with_records(files: Map<Seq<char>, LockFileView>, records: Seq<(Seq<char>, LockFileView)>) -> Map<
    Seq<char>,
    LockFileView,
>
    decreases records.len(),
{
    if records.len() == 0 {
        files
    } else {
        spec_with_records(files, records.drop_last()).insert(records.last().0, records.last().1)
    }
}

/// The changes that writing `records` makes to a lock holding `files`: a
/// record is offered unless the lock holds the very same one and the file on
/// disk already has the new content (`same[i]` for the `i`-th record).
pub open spec fn spec_upserts(
    files: Map<Seq<char>, LockFileView>,
    records: Seq<(Seq<char>, LockFileView)>,
    same: Seq<bool>,
) -> Seq<ReviewFileView>
    decreases records.len(),
{
    if records.len() == 0 {
        Seq::empty()
    } else {
        let i = records.len() - 1;
        let rest = spec_upserts(files, records.drop_last(), same);
        let (key, next) = records[i];
        let old = record_at(files, key);
        if old == Some(next) && i < same.len() && same[i] {
            rest
        } else {
            rest.push(ReviewFileView { key, path: next.path, old, next: Some(next), accepted: false })
        }
    }
}

/// The removals an update makes: each locked key, in key order, that the
/// updated lock no longer reaches from `roots`.
pub open spec fn spec_removals(lock: VdmLock, keys: Seq<Seq<char>>, updated: VdmLock, roots: Seq<Seq<char>>) -> Seq<
    ReviewFileView,
>
    decreases keys.len(),
{
    if keys.len() == 0 {
        Seq::empty()
    } else {
        let rest = spec_removals(lock, keys.drop_last(), updated, roots);
        let key = keys.last();
        if spec_reachable(updated, roots, key) {
            rest
        } else {
            let old = files_map(lock.files)[key];
            rest.push(ReviewFileView { key, path: old.path, old: Some(old), next: None, accepted: false })
        }
    }
}

/// The files in nondecreasing order of their paths.
pub open spec fn sorted_by_path(v: Seq<ReviewFileView>) -> bool {
    forall|i: int, j: int| 0 <= i < j < v.len() ==> !seq_lt(#[trigger] v[j].path, #[trigger] v[i].path)
}

fn less_path(a: &String, b: &String) -> (r: bool)
    ensures
        r == seq_lt(a@, b@),
{
    let x = chars_of(a.as_str());
    let y = chars_of(b.as_str());
    match order_chars(x.as_slice(), y.as_slice()) {
        KeyOrder::Less => true,
        KeyOrder::Equal => {
            proof {
                crate::map::lemma_seq_lt_irreflexive(a@);
            }
            false
        },
        KeyOrder::Greater => {
            proof {
                lemma_seq_lt_asymmetric(b@, a@);
            }
            false
        },
    }
}

/// The review files ordered by path; files with equal paths keep their order.
fn sort_by_path(v: Vec<VdmReviewFile>) -> (r: Vec<VdmReviewFile>)
    ensures
        sorted_by_path(reviews_view(r@)),
        reviews_view(r@).to_multiset() == reviews_view(v@).to_multiset(),
{
    let ghost given = reviews_view(v@);
    let mut pending: Vec<VdmReviewFile> = Vec::new();
    let mut v = v;
    while v.len() > 0
        invariant
            reviews_view(pending@) + reviews_view(v@).reverse() == given.reverse(),
        decreases v@.len(),
    {
        let ghost before = reviews_view(v@);
        let f = v.pop().unwrap();
        assert(reviews_view(v@) =~= before.drop_last());
        pending.push(f);
        assert(before.reverse() =~= seq![before.last()] + before.drop_last().reverse());
        assert(reviews_view(pending@) + reviews_view(v@).reverse() =~= given.reverse());
    }
    assert(reviews_view(v@).reverse() =~= Seq::<ReviewFileView>::empty());
    assert(reviews_view(pending@) =~= given.reverse());
    let mut r: Vec<VdmReviewFile> = Vec::new();
    proof {
        given.lemma_reverse_to_multiset();
        assert(reviews_view(r@) =~= Seq::<ReviewFileView>::empty());
    }
    while pending.len() > 0
        invariant
            sorted_by_path(reviews_view(r@)),
            reviews_view(r@).to_multiset().add(reviews_view(pending@).to_multiset()) == given.to_multiset(),
        decreases pending@.len(),
    {
        let ghost before_pending = reviews_view(pending@);
        let f = pending.pop().unwrap();
        let ghost fv = f@;
        proof {
            assert(before_pending =~= reviews_view(pending@).push(fv));
        }
        let ghost before = reviews_view(r@);
        let mut p: usize = 0;
        while p < r.len() && !less_path(&f.path, &r[p].path)
            invariant
                p <= r@.len(),
                before == reviews_view(r@),
                fv == f@,
                forall|q: int| 0 <= q < p ==> !seq_lt(fv.path, #[trigger] before[q].path),
            decreases r@.len() - p,
        {
            p += 1;
        }
        r.insert(p, f);
        proof {
            let after = reviews_view(r@);
            assert(after =~= before.insert(p as int, fv));
            assert forall|a: int, b: int| 0 <= a < b < after.len() implies !seq_lt(
                #[trigger] after[b].path,
                #[trigger] after[a].path,
            ) by {
                if b == p {
                    assert(after[a] == before[a]);
                    assert(!seq_lt(fv.path, before[a].path));
                    if seq_lt(after[b].path, after[a].path) {
                        assert(seq_lt(fv.path, before[a].path));
                    }
                } else if a == p {
                    assert(after[b] == before[b - 1]);
                    if p < before.len() {
                        assert(seq_lt(fv.path, before[p as int].path));
                        if b - 1 > p {
                            assert(!seq_lt(before[b - 1].path, before[p as int].path));
                            if seq_lt(before[b - 1].path, fv.path) {
                                lemma_seq_lt_transitive(before[b - 1].path, fv.path, before[p as int].path);
                            }
                        } else {
                            lemma_seq_lt_asymmetric(fv.path, before[p as int].path);
                        }
                    }
                } else if a < p && b < p {
                    assert(after[a] == before[a] && after[b] == before[b]);
                } else if a < p && b > p {
                    assert(after[a] == before[a] && after[b] == before[b - 1]);
                } else {
                    assert(after[a] == before[a - 1] && after[b] == before[b - 1]);
                }
            }
            assert(after.to_multiset() == before.to_multiset().insert(fv));
            assert(before_pending.to_multiset() == reviews_view(pending@).to_multiset().insert(fv));
            assert(after.to_multiset().add(reviews_view(pending@).to_multiset()) =~= before.to_multiset().add(
                before_pending.to_multiset(),
            ));
        }
    }
    assert(reviews_view(pending@).to_multiset() =~= Multiset::<ReviewFileView>::empty());
    assert(reviews_view(r@).to_multiset().add(Multiset::<ReviewFileView>::empty()) =~= reviews_view(r@).to_multiset());
    r
}

/// The changes an update offers for review.  `updated` (the lock as the
/// update leaves it, groups recorded) gets each of `records` set; offered are
/// the records that change the lock or the file on disk (`same[i]` telling
/// that the file of the `i`-th record already has its content), and the
/// removal of each locked file that the updated lock no longer reaches from
/// `roots`; ordered by path.
pub fn review_changes(
    lock: &VdmLock,
    updated: &mut VdmLock,
    records: Vec<(VdmManifestTargetUrl, VdmLockFile)>,
    same: &Vec<bool>,
    roots: &Vec<VdmManifestTargetUrl>,
) -> (r: Vec<VdmReviewFile>)
    requires
        lock.wf(),
        old(updated).wf(),
    ensures
        final(updated).wf(),
        files_map(final(updated).files) == spec_with_records(files_map(old(updated).files), records_view(records@)),
        final(updated).globs == old(updated).globs,
        final(updated).updates == old(updated).updates,
        sorted_by_path(reviews_view(r@)),
        reviews_view(r@).to_multiset() == (spec_upserts(files_map(lock.files), records_view(records@), same@)
            + spec_removals(*lock, lock.files.keys(), *final(updated), keys_view(roots@))).to_multiset(),
{
    let ghost fm = files_map(lock.files);
    let ghost rv = records_view(records@);
    let ghost start = files_map(updated.files);
    let mut out: Vec<VdmReviewFile> = Vec::new();
    let mut i: usize = 0;
    assert(rv.take(0) =~= Seq::<(Seq<char>, LockFileView)>::empty());
    assert(reviews_view(out@) =~= Seq::<ReviewFileView>::empty());
    while i < records.len()
        invariant
            i <= records@.len(),
            lock.wf(),
            updated.wf(),
            fm == files_map(lock.files),
            rv == records_view(records@),
            updated.globs == old(updated).globs,
            updated.updates == old(updated).updates,
            start == files_map(old(updated).files),
            files_map(updated.files) == spec_with_records(start, rv.take(i as int)),
            reviews_view(out@) == spec_upserts(fm, rv.take(i as int), same@),
        decreases records@.len() - i,
    {
        assert(rv.take(i + 1).drop_last() =~= rv.take(i as int));
        assert(rv.take(i + 1).last() == rv[i as int]);
        assert(rv.take(i + 1)[i as int] == rv[i as int]);
        let (key, next) = &records[i];
        assert(rv[i as int] == (key@, next@));
        let old = match lock.files.get(key) {
            Some(f) => Some(f.duplicate()),
            None => None,
        };
        assert(opt_file_view(old) == record_at(fm, key@));
        let unchanged = match &old {
            Some(o) => same_lock_file(o, next),
            None => false,
        } && i < same.len() && same[i];
        let ghost before_files = files_map(updated.files);
        updated.files.insert(key.clone(), next.duplicate());
        assert(files_map(updated.files) =~= before_files.insert(key@, next@));
        if !unchanged {
            let ghost before = reviews_view(out@);
            let change = VdmReviewFile {
                key: key.clone(),
                path: next.path.clone(),
                old,
                next: Some(next.duplicate()),
                accepted: false,
            };
            out.push(change);
            assert(reviews_view(out@) =~= before.push(change@));
        }
        i += 1;
    }
    assert(rv.take(records@.len() as int) =~= rv);
    let ghost upserts = reviews_view(out@);
    let reached = reachable(updated, roots);
    let ghost keys = lock.files.keys();
    proof {
        lock.files.lemma_same_length();
    }
    let n = lock.files.len();
    let mut j: usize = 0;
    assert(keys.take(0) =~= Seq::<Seq<char>>::empty());
    assert(reviews_view(out@) =~= upserts + spec_removals(*lock, keys.take(0), *updated, keys_view(roots@)));
    while j < n
        invariant
            j <= n,
            n == keys.len(),
            keys == lock.files.keys(),
            lock.files.keys().len() == lock.files.values().len(),
            lock.wf(),
            updated.wf(),
            forall|x: Seq<char>| #[trigger] keys_view(reached@).contains(x) <==> spec_reachable(*updated, keys_view(roots@), x),
            reviews_view(out@) == upserts + spec_removals(*lock, keys.take(j as int), *updated, keys_view(roots@)),
        decreases n - j,
    {
        assert(keys.take(j + 1).drop_last() =~= keys.take(j as int));
        assert(keys.take(j + 1).last() == keys[j as int]);
        let (key, old) = lock.files.entry(j);
        proof {
            crate::map::lemma_sorted_index(keys, key@, j as int);
            assert(files_map(lock.files)[key@] == old@);
        }
        if !contains_key(&reached, key) {
            let ghost before = reviews_view(out@);
            let change = VdmReviewFile {
                key: key.clone(),
                path: old.path.clone(),
                old: Some(old.duplicate()),
                next: None,
                accepted: false,
            };
            out.push(change);
            assert(reviews_view(out@) =~= before.push(change@));
        }
        j += 1;
    }
    assert(keys.take(n as int) =~= keys);
    sort_by_path(out)
}

/// A reviewed update of a key: the revisions it goes from and to, and the decision.
pub struct UpdateView {
    pub from: Option<Seq<char>>,
    pub to: Option<Seq<char>>,
    pub decision: VdmLockUpdateDecision,
}

/// The view of an optional string.
pub open spec fn opt_text(o: Option<String>) -> Option<Seq<char>> {
    match o {
        Some(t) => Some(t@),
        None => None,
    }
}

/// The view of a reviewed update.
pub open spec fn update_view(u: VdmLockUpdate) -> UpdateView {
    UpdateView { from: opt_text(u.from), to: opt_text(u.to), decision: u.decision }
}

/// The reviewed updates as a mathematical map.
pub open spec fn updates_map(m: UrlMap<VdmLockUpdate>) -> Map<Seq<char>, UpdateView> {
    Map::new(|k: Seq<char>| m.lookup(k) is Some, |k: Seq<char>| update_view(m.lookup(k)->0))
}

/// The revision of an optional record.
pub open spec fn revision_of(f: Option<LockFileView>) -> Option<Seq<char>> {
    match f {
        Some(r) => Some(r.revision),
        None => None,
    }
}

/// The update recorded for a reviewed change.
pub open spec fn review_update(f: ReviewFileView) -> UpdateView {
    UpdateView {
        from: revision_of(f.old),
        to: revision_of(f.next),
        decision: if f.accepted {
            VdmLockUpdateDecision::Accepted
        } else {
            VdmLockUpdateDecision::Rejected
        },
    }
}

/// The reviewed updates once every change's decision is recorded, in order.
pub open spec fn spec_review_updates(updates: Map<Seq<char>, UpdateView>, files: Seq<ReviewFileView>) -> Map<
    Seq<char>,
    UpdateView,
>
    decreases files.len(),
{
    if files.len() == 0 {
        updates
    } else {
        spec_review_updates(updates, files.drop_last()).insert(files.last().key, review_update(files.last()))
    }
}

/// The locked records once the accepted changes are applied, in order: an
/// accepted new record is set, an accepted removal removes the record.
pub open spec fn spec_review_files(records: Map<Seq<char>, LockFileView>, files: Seq<ReviewFileView>) -> Map<
    Seq<char>,
    LockFileView,
>
    decreases files.len(),
{
    if files.len() == 0 {
        records
    } else {
        let before = spec_review_files(records, files.drop_last());
        let f = files.last();
        if !f.accepted {
            before
        } else {
            match f.next {
                Some(n) => before.insert(f.key, n),
                None => before.remove(f.key),
            }
        }
    }
}

/// How many accepted changes write a file (`writes`) or remove one.
pub open spec fn spec_accepted_count(files: Seq<ReviewFileView>, writes: bool) -> nat
    decreases files.len(),
{
    if files.len() == 0 {
        0
    } else {
        spec_accepted_count(files.drop_last(), writes) + if files.last().accepted && (files.last().next is Some) == writes {
            1nat
        } else {
            0nat
        }
    }
}

/// Some accepted change is the one at `key`.
pub open spec fn spec_key_accepted(files: Seq<ReviewFileView>, key: Seq<char>) -> bool {
    exists|i: int| 0 <= i < files.len() && #[trigger] files[i].key == key && files[i].accepted
}

/// The members a reviewed group keeps: its members before and those the
/// update gave it, as far as they are still locked.
pub open spec fn spec_retained(before: Seq<Seq<char>>, given: Seq<Seq<char>>, records: Map<Seq<char>, LockFileView>) -> Set<
    Seq<char>,
> {
    Set::new(|m: Seq<char>| (before.contains(m) || given.contains(m)) && records.contains_key(m))
}

/// What applying a review did: how many files it writes and removes, and
/// whether the manifest takes the new version.
#[derive(Debug)]
pub struct VdmReviewOutcome {
    pub changed: usize,
    pub removed: usize,
    pub manifest_update: bool,
}

/// Applies the reviewed changes of the update of `root` to `lock`: every
/// decision is recorded among the updates, accepted records are set and
/// accepted removals made.  When the update of a group changed something,
/// `given` being the members the update gave it, the group keeps its former
/// and given members that are still locked.  The manifest takes the new
/// version when the change of `root` itself was accepted or the group changed.
pub fn apply_review(
    lock: &mut VdmLock,
    files: &Vec<VdmReviewFile>,
    root: &VdmManifestTargetUrl,
    given: Option<&Vec<VdmManifestTargetUrl>>,
) -> (r: VdmReviewOutcome)
    requires
        old(lock).wf(),
    ensures
        final(lock).wf(),
        updates_map(final(lock).updates) == spec_review_updates(updates_map(old(lock).updates), reviews_view(files@)),
        files_map(final(lock).files) == spec_review_files(files_map(old(lock).files), reviews_view(files@)),
        r.changed == spec_accepted_count(reviews_view(files@), true),
        r.removed == spec_accepted_count(reviews_view(files@), false),
        match given {
            Some(ms) if r.changed > 0 || r.removed > 0 => final(lock).globs.lookup(root@) matches Some(kept)
                && strictly_sorted_seqs(keys_view(kept@)) && keys_view(kept@).to_set() == spec_retained(
                match old(lock).globs.lookup(root@) {
                    Some(before) => keys_view(before@),
                    None => Seq::<Seq<char>>::empty(),
                },
                keys_view(ms@),
                files_map(final(lock).files),
            ) && forall|k: Seq<char>| k != root@ ==> #[trigger] final(lock).globs.lookup(k) == old(lock).globs.lookup(k),
            _ => final(lock).globs == old(lock).globs,
        },
        r.manifest_update == (spec_key_accepted(reviews_view(files@), root@) || (given is Some && (r.changed > 0
            || r.removed > 0))),
        (exists|i: int| 0 <= i < files@.len() && #[trigger] files@[i].key@ == root@ && files@[i].accepted)
            ==> r.manifest_update,
        (forall|i: int| 0 <= i < files@.len() ==> !(#[trigger] files@[i].key@ == root@ && files@[i].accepted))
            && given is None ==> !r.manifest_update,
{
    let ghost fv = reviews_view(files@);
    let ghost start_updates = updates_map(lock.updates);
    let ghost start_files = files_map(lock.files);
    let ghost start_globs = lock.globs;
    let mut changed: usize = 0;
    let mut removed: usize = 0;
    let mut root_accepted = false;
    let mut i: usize = 0;
    assert(fv.take(0) =~= Seq::<ReviewFileView>::empty());
    while i < files.len()
        invariant
            i <= files@.len(),
            fv == reviews_view(files@),
            lock.wf(),
            lock.globs == start_globs,
            updates_map(lock.updates) == spec_review_updates(start_updates, fv.take(i as int)),
            files_map(lock.files) == spec_review_files(start_files, fv.take(i as int)),
            changed == spec_accepted_count(fv.take(i as int), true),
            removed == spec_accepted_count(fv.take(i as int), false),
            changed + removed <= i,
            root_accepted == spec_key_accepted(fv.take(i as int), root@),
        decreases files@.len() - i,
    {
        let ghost prefix = fv.take(i + 1);
        assert(prefix.drop_last() =~= fv.take(i as int));
        assert(prefix.last() == fv[i as int]);
        let file = &files[i];
        let from = match &file.old {
            Some(o) => Some(o.revision.clone()),
            None => None,
        };
        let to = match &file.next {
            Some(n) => Some(n.revision.clone()),
            None => None,
        };
        let decision = if file.accepted {
            VdmLockUpdateDecision::Accepted
        } else {
            VdmLockUpdateDecision::Rejected
        };
        let update = VdmLockUpdate { from, to, decision };
        assert(update_view(update) == review_update(fv[i as int]));
        let ghost before_updates = updates_map(lock.updates);
        lock.updates.insert(file.key.clone(), update);
        assert(updates_map(lock.updates) =~= before_updates.insert(file.key@, update_view(update)));
        let ghost before_files = files_map(lock.files);
        if file.accepted {
            if same_key(&file.key, root) {
                root_accepted = true;
            }
            match &file.next {
                Some(n) => {
                    lock.files.insert(file.key.clone(), n.duplicate());
                    assert(files_map(lock.files) =~= before_files.insert(file.key@, n@));
                    changed += 1;
                },
                None => {
                    let _ = lock.files.remove(&file.key);
                    assert(files_map(lock.files) =~= before_files.remove(file.key@));
                    removed += 1;
                },
            }
        }
        proof {
            if root_accepted {
                if spec_key_accepted(fv.take(i as int), root@) {
                    let q = choose|q: int| 0 <= q < i && #[trigger] fv.take(i as int)[q].key == root@ && fv.take(i as int)[q].accepted;
                    assert(prefix[q] == fv.take(i as int)[q]);
                } else {
                    assert(prefix[i as int].key == root@ && prefix[i as int].accepted);
                }
            }
            if spec_key_accepted(prefix, root@) {
                let q = choose|q: int| 0 <= q < i + 1 && #[trigger] prefix[q].key == root@ && prefix[q].accepted;
                if q < i {
                    assert(fv.take(i as int)[q] == prefix[q]);
                }
            }
        }
        i += 1;
    }
    assert(fv.take(files@.len() as int) =~= fv);
    let group_changed = changed > 0 || removed > 0;
    match given {
        Some(ms) => {
            if group_changed {
                let mut kept: UrlMap<bool> = UrlMap::new();
                let before: Vec<VdmManifestTargetUrl> = match lock.globs.get(root) {
                    Some(b) => crate::vendor::copy_keys(b),
                    None => Vec::new(),
                };
                let ghost bv = keys_view(before@);
                let ghost gv = keys_view(ms@);
                let ghost fm = files_map(lock.files);
                let ghost target = spec_retained(bv, gv, fm);
                let mut k: usize = 0;
                while k < before.len()
                    invariant
                        k <= before@.len(),
                        kept.wf(),
                        lock.wf(),
                        fm == files_map(lock.files),
                        bv == keys_view(before@),
                        kept.keys().to_set() == Set::new(|m: Seq<char>| bv.take(k as int).contains(m) && fm.contains_key(m)),
                    decreases before@.len() - k,
                {
                    if lock.files.contains_key(&before[k]) {
                        kept.insert(before[k].clone(), true);
                    }
                    proof {
                        assert forall|m: Seq<char>| #[trigger] bv.take(k + 1).contains(m) <==> (bv.take(k as int).contains(m) || m == bv[k as int]) by {
                            if bv.take(k + 1).contains(m) {
                                let q = choose|q: int| 0 <= q < k + 1 && #[trigger] bv.take(k + 1)[q] == m;
                                if q < k {
                                    assert(bv.take(k as int)[q] == m);
                                }
                            }
                            if bv.take(k as int).contains(m) {
                                let q = choose|q: int| 0 <= q < k && #[trigger] bv.take(k as int)[q] == m;
                                assert(bv.take(k + 1)[q] == m);
                            }
                            if m == bv[k as int] {
                                assert(bv.take(k + 1)[k as int] == m);
                            }
                        }
                        assert(kept.keys().to_set() =~= Set::new(|m: Seq<char>| bv.take(k + 1).contains(m) && fm.contains_key(m)));
                    }
                    k += 1;
                }
                assert(bv.take(before@.len() as int) =~= bv);
                let mut g: usize = 0;
                while g < ms.len()
                    invariant
                        g <= ms@.len(),
                        kept.wf(),
                        lock.wf(),
                        fm == files_map(lock.files),
                        gv == keys_view(ms@),
                        kept.keys().to_set() == Set::new(|m: Seq<char>| (bv.contains(m) || gv.take(g as int).contains(m)) && fm.contains_key(m)),
                    decreases ms@.len() - g,
                {
                    if lock.files.contains_key(&ms[g]) {
                        kept.insert(ms[g].clone(), true);
                    }
                    proof {
                        assert forall|m: Seq<char>| #[trigger] gv.take(g + 1).contains(m) <==> (gv.take(g as int).contains(m) || m == gv[g as int]) by {
                            if gv.take(g + 1).contains(m) {
                                let q = choose|q: int| 0 <= q < g + 1 && #[trigger] gv.take(g + 1)[q] == m;
                                if q < g {
                                    assert(gv.take(g as int)[q] == m);
                                }
                            }
                            if gv.take(g as int).contains(m) {
                                let q = choose|q: int| 0 <= q < g && #[trigger] gv.take(g as int)[q] == m;
                                assert(gv.take(g + 1)[q] == m);
                            }
                            if m == gv[g as int] {
                                assert(gv.take(g + 1)[g as int] == m);
                            }
                        }
                        assert(kept.keys().to_set() =~= Set::new(|m: Seq<char>| (bv.contains(m) || gv.take(g + 1).contains(m)) && fm.contains_key(m)));
                    }
                    g += 1;
                }
                assert(gv.take(ms@.len() as int) =~= gv);
                assert(kept.keys().to_set() =~= target);
                let members = key_list(&kept);
                lock.globs.insert(root.clone(), members);
            }
        },
        None => {},
    }
    proof {
        lemma_root_review_updates_manifest(fv, root@);
        if exists|i: int| 0 <= i < files@.len() && #[trigger] files@[i].key@ == root@ && files@[i].accepted {
            let i = choose|i: int| 0 <= i < files@.len() && #[trigger] files@[i].key@ == root@ && files@[i].accepted;
            assert(fv[i] == files@[i]@);
            assert(fv[i].key == root@ && fv[i].accepted);
            assert(spec_key_accepted(fv, root@));
        }
        if spec_key_accepted(fv, root@) {
            let i = choose|i: int| 0 <= i < fv.len() && #[trigger] fv[i].key == root@ && fv[i].accepted;
            assert(fv[i] == files@[i]@);
        }
    }
    VdmReviewOutcome { changed, removed, manifest_update: root_accepted || (given.is_some() && group_changed) }
}

/// The manifest takes the new version exactly when some file of the review
/// whose key is the root's was accepted (whether it is a changed, a new or a
/// removed file), or the reviewed group changed: an accepted review of the
/// root is never ignored, and without one and without a group nothing moves
/// the manifest.
pub proof fn lemma_root_review_updates_manifest(files: Seq<ReviewFileView>, root: Seq<char>)
    ensures
        (exists|i: int| 0 <= i < files.len() && #[trigger] files[i].key == root && files[i].accepted)
            <==> spec_key_accepted(files, root),
        forall|i: int| 0 <= i < files.len() && #[trigger] files[i].key == root && files[i].accepted && files[i].old is Some
            ==> spec_key_accepted(files, root),
{
}

/// Whether two keys are the same.
fn same_key(a: &VdmManifestTargetUrl, b: &VdmManifestTargetUrl) -> (r: bool)
    ensures
        r == (a@ == b@),
{
    crate::text::eq_chars(a.to_chars().as_slice(), b.to_chars().as_slice())
}

/// The keys of a map, in order.
fn key_list(m: &UrlMap<bool>) -> (r: Vec<VdmManifestTargetUrl>)
    requires
        m.wf(),
    ensures
        keys_view(r@) == m.keys(),
        strictly_sorted_seqs(keys_view(r@)),
{
    let mut r: Vec<VdmManifestTargetUrl> = Vec::new();
    let n = m.len();
    let mut i: usize = 0;
    while i < n
        invariant
            n == m.keys().len(),
            m.wf(),
            i <= n,
            keys_view(r@) == m.keys().take(i as int),
        decreases n - i,
    {
        let (key, _) = m.entry(i);
        let ghost before = keys_view(r@);
        r.push(key.clone());
        assert(keys_view(r@) =~= before.push(key@));
        assert(m.keys().take(i + 1) =~= m.keys().take(i as int).push(m.keys()[i as int]));
        i += 1;
    }
    assert(m.keys().take(n as int) =~= m.keys());
    r
}

} // verus!
