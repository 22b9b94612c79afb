//! Walking the dependency graph of a target: which file to fetch next, and
//! what is recorded once its dependencies are resolved.
use vstd::prelude::*;

use crate::error::{error_kind, VdmError};
use crate::lock::file::{path_strip_prefix, strip_path_prefix};
use crate::lock::keys_view;
use crate::manifest::target::VdmManifestTargetUrl;
use crate::map::{key_index, UrlMap};
use crate::sort::{sorted_unique_strings, strictly_sorted_seqs, strings_view};
use crate::source::file::VdmSourceFile;
use crate::http::target::{HttpTargetView, VdmHttpTarget};
use crate::git::parse::spec_git_locate;
use crate::github::parse::spec_github_input;
use crate::source::input::{no_nul, spec_parse_target, AnyTargetView, VdmAnyTarget, VdmSourceInput};
use crate::target::VdmTarget;
use crate::text::{chars_of, eq_chars, rfind_char, rfind_char_exec, split_char, split_char_exec, string_of};

verus! {

/// A file of a resolved graph: its target, its content, and the keys of the
/// files it imports.
#[derive(Debug)]
pub struct VitGraphFile {
    pub target: VdmAnyTarget,
    pub download: VdmSourceFile,
    pub dependencies: Vec<VdmManifestTargetUrl>,
}

/// A target waiting to be fetched, with its content when it is already known.
pub type PendingFile = (VdmAnyTarget, Option<VdmSourceFile>);

/// A walk over a dependency graph: the targets still to visit (the last one
/// first) and the files visited so far, by key.
#[derive(Debug)]
pub struct VdmGraphWalk {
    pending: Vec<PendingFile>,
    files: UrlMap<VitGraphFile>,
}

/// Among `pending`, the last target whose key is not yet in `files`.
pub open spec fn spec_next_index(pending: Seq<PendingFile>, files: UrlMap<VitGraphFile>) -> Option<int>
    decreases pending.len(),
{
    if pending.len() == 0 {
        None
    } else if files.lookup(pending.last().0.key_view()) is None {
        Some(pending.len() - 1)
    } else {
        spec_next_index(pending.drop_last(), files)
    }
}

/// The walk takes the last pending target not yet visited: every target after
/// it is visited already, and when none is left every pending target is.
pub proof fn lemma_next_index_unvisited(pending: Seq<PendingFile>, files: UrlMap<VitGraphFile>)
    ensures
        match spec_next_index(pending, files) {
            Some(j) => 0 <= j < pending.len() && files.lookup(pending[j].0.key_view()) is None
                && forall|k: int| j < k < pending.len() ==> #[trigger] files.lookup(pending[k].0.key_view()) is Some,
            None => forall|k: int| 0 <= k < pending.len() ==> #[trigger] files.lookup(pending[k].0.key_view()) is Some,
        },
    decreases pending.len(),
{
    if pending.len() > 0 && files.lookup(pending.last().0.key_view()) is Some {
        lemma_next_index_unvisited(pending.drop_last(), files);
        assert forall|k: int| 0 <= k < pending.len() - 1 implies pending.drop_last()[k] == pending[k] by {}
    }
}

/// The resolved targets that are not yet visited, each waiting without content.
pub open spec fn spec_unseen(resolved: Seq<VdmAnyTarget>, files: UrlMap<VitGraphFile>) -> Seq<PendingFile>
    decreases resolved.len(),
{
    if resolved.len() == 0 {
        Seq::empty()
    } else {
        let rest = spec_unseen(resolved.drop_last(), files);
        if files.lookup(resolved.last().key_view()) is None {
            rest.push((resolved.last(), None))
        } else {
            rest
        }
    }
}

/// The keys of some targets.
pub open spec fn target_keys(ts: Seq<VdmAnyTarget>) -> Seq<Seq<char>> {
    ts.map_values(|t: VdmAnyTarget| t.key_view())
}

/// The keys of the targets waiting in `pending`.
pub open spec fn pending_keys(pending: Seq<PendingFile>) -> Seq<Seq<char>> {
    pending.map_values(|p: PendingFile| p.0.key_view())
}

/// The key of a target taken from the walk, if one was.
pub open spec fn taken_keys(taken: Option<PendingFile>) -> Seq<Seq<char>> {
    match taken {
        Some(p) => seq![p.0.key_view()],
        None => Seq::empty(),
    }
}

/// The walk knows of `k`: it was visited, or it is among `keys` still to visit.
pub open spec fn key_known(files: UrlMap<VitGraphFile>, keys: Seq<Seq<char>>, k: Seq<char>) -> bool {
    files.lookup(k) is Some || keys.contains(k)
}

/// The dependency keys of the file visited under `k` (none when it was not visited).
pub open spec fn dependency_keys(files: UrlMap<VitGraphFile>, k: Seq<char>) -> Seq<Seq<char>> {
    match files.lookup(k) {
        Some(f) => keys_view(f.dependencies@),
        None => Seq::empty(),
    }
}

/// Every dependency of every visited file is known to the walk.
pub open spec fn dependencies_known(files: UrlMap<VitGraphFile>, keys: Seq<Seq<char>>) -> bool {
    forall|k: Seq<char>, i: int|
        0 <= i < dependency_keys(files, k).len() ==> key_known(files, keys, #[trigger] dependency_keys(files, k)[i])
}

/// The keys the walk knows of once it took its next target: those still
/// pending and the one taken.
pub open spec fn next_keys(pending: Seq<PendingFile>, files: UrlMap<VitGraphFile>) -> Seq<Seq<char>> {
    match spec_next_index(pending, files) {
        Some(j) => pending_keys(pending.take(j)) + seq![pending[j].0.key_view()],
        None => Seq::<Seq<char>>::empty(),
    }
}

/// Taking the next target keeps every known key known, counting the target taken.
proof fn lemma_next_keeps_known(pending: Seq<PendingFile>, files: UrlMap<VitGraphFile>)
    ensures
        forall|x: Seq<char>| key_known(files, pending_keys(pending), x) ==> #[trigger] key_known(
            files,
            next_keys(pending, files),
            x,
        ),
{
    lemma_next_index_unvisited(pending, files);
    assert forall|x: Seq<char>| key_known(files, pending_keys(pending), x) implies #[trigger] key_known(
        files,
        next_keys(pending, files),
        x,
    ) by {
        if files.lookup(x) is None {
            let m = choose|m: int| 0 <= m < pending_keys(pending).len() && pending_keys(pending)[m] == x;
            assert(pending[m].0.key_view() == x);
            match spec_next_index(pending, files) {
                Some(j) => {
                    let ks = pending_keys(pending.take(j)) + seq![pending[j].0.key_view()];
                    if m < j {
                        assert(ks[m] == x);
                    } else if m == j {
                        assert(ks[j] == x);
                    } else {
                        assert(files.lookup(pending[m].0.key_view()) is Some);
                    }
                },
                None => {
                    assert(files.lookup(pending[m].0.key_view()) is Some);
                },
            }
        }
    }
}

/// Each resolved target is either visited already or queued by `spec_unseen`.
proof fn lemma_unseen_covers(resolved: Seq<VdmAnyTarget>, files: UrlMap<VitGraphFile>)
    ensures
        forall|i: int| 0 <= i < resolved.len() ==> files.lookup(#[trigger] resolved[i].key_view()) is Some
            || pending_keys(spec_unseen(resolved, files)).contains(resolved[i].key_view()),
    decreases resolved.len(),
{
    if resolved.len() > 0 {
        let init = resolved.drop_last();
        lemma_unseen_covers(init, files);
        let rest = spec_unseen(init, files);
        assert forall|i: int| 0 <= i < resolved.len() implies files.lookup(#[trigger] resolved[i].key_view()) is Some
            || pending_keys(spec_unseen(resolved, files)).contains(resolved[i].key_view()) by {
            if files.lookup(resolved[i].key_view()) is None {
                if i < resolved.len() - 1 {
                    assert(resolved[i] == init[i]);
                    let m = choose|m: int| 0 <= m < pending_keys(rest).len() && pending_keys(rest)[m] == init[i].key_view();
                    if files.lookup(resolved.last().key_view()) is None {
                        assert(spec_unseen(resolved, files) == rest.push((resolved.last(), None)));
                        assert(pending_keys(spec_unseen(resolved, files))[m] == pending_keys(rest)[m]);
                    }
                } else {
                    assert(spec_unseen(resolved, files) == rest.push((resolved.last(), None)));
                    assert(pending_keys(spec_unseen(resolved, files))[rest.len() as int] == resolved[i].key_view());
                }
            }
        }
    }
}

/// Dependencies known through some keys stay known through keys that know more.
proof fn lemma_dependencies_known_more(files: UrlMap<VitGraphFile>, fewer: Seq<Seq<char>>, more: Seq<Seq<char>>)
    requires
        dependencies_known(files, fewer),
        forall|x: Seq<char>| key_known(files, fewer, x) ==> #[trigger] key_known(files, more, x),
    ensures
        dependencies_known(files, more),
{
    assert forall|k: Seq<char>, i: int| 0 <= i < dependency_keys(files, k).len()
        implies key_known(files, more, #[trigger] dependency_keys(files, k)[i]) by {
        assert(key_known(files, fewer, dependency_keys(files, k)[i]));
    }
}

/// What taking the next target keeps known: every key, and the dependencies.
proof fn lemma_next_known(pending: Seq<PendingFile>, files: UrlMap<VitGraphFile>)
    ensures
        forall|x: Seq<char>| key_known(files, pending_keys(pending), x) ==> #[trigger] key_known(files, next_keys(pending, files), x),
        dependencies_known(files, pending_keys(pending)) ==> dependencies_known(files, next_keys(pending, files)),
{
    lemma_next_keeps_known(pending, files);
    if dependencies_known(files, pending_keys(pending)) {
        lemma_dependencies_known_more(files, pending_keys(pending), next_keys(pending, files));
    }
}

/// When the walk has no target left to visit, the graph it holds is closed:
/// every dependency of a visited file was visited, and so was every key the
/// walk knew of, its root among them.
pub proof fn lemma_walk_closed(walk: VdmGraphWalk, root: Seq<char>)
    requires
        dependencies_known(walk.files_view(), pending_keys(walk.pending_view())),
        key_known(walk.files_view(), pending_keys(walk.pending_view()), root),
        spec_next_index(walk.pending_view(), walk.files_view()) is None,
    ensures
        walk.files_view().lookup(root) is Some,
        forall|k: Seq<char>, i: int| 0 <= i < dependency_keys(walk.files_view(), k).len()
            ==> walk.files_view().lookup(#[trigger] dependency_keys(walk.files_view(), k)[i]) is Some,
{
    lemma_next_keeps_known(walk.pending_view(), walk.files_view());
    let files = walk.files_view();
    let pending = walk.pending_view();
    assert(next_keys(pending, files) == Seq::<Seq<char>>::empty());
    assert(key_known(files, next_keys(pending, files), root));
    assert forall|k: Seq<char>, i: int| 0 <= i < dependency_keys(files, k).len()
        implies files.lookup(#[trigger] dependency_keys(files, k)[i]) is Some by {
        assert(key_known(files, pending_keys(pending), dependency_keys(files, k)[i]));
        assert(key_known(files, next_keys(pending, files), dependency_keys(files, k)[i]));
    }
}

impl VdmGraphWalk {
    /// The targets still to visit; the last is visited first.
    pub closed spec fn pending_view(&self) -> Seq<PendingFile> {
        self.pending@
    }

    /// The files visited so far.
    pub closed spec fn files_view(&self) -> UrlMap<VitGraphFile> {
        self.files
    }

    /// Every visited file is kept under its own key.
    pub open spec fn wf(&self) -> bool {
        &&& self.files_view().wf()
        &&& forall|k: Seq<char>| #[trigger] self.files_view().lookup(k) matches Some(f) ==> f.target.key_view() == k
    }

    /// A walk that starts at `root`, whose content may already be known.
    pub fn new(root: VdmAnyTarget, download: Option<VdmSourceFile>) -> (r: Self)
        ensures
            r.wf(),
            r.pending_view() == seq![(root, download)],
            r.files_view().keys() == Seq::<Seq<char>>::empty(),
            dependencies_known(r.files_view(), pending_keys(r.pending_view())),
            key_known(r.files_view(), pending_keys(r.pending_view()), root.key_view()),
    {
        let files: UrlMap<VitGraphFile> = UrlMap::new();
        proof {
            assert forall|k: Seq<char>| #[trigger] files.lookup(k) is None by {
                assert(key_index(files.keys(), k) is None);
            }
        }
        let ghost rk = root.key_view();
        let mut pending: Vec<PendingFile> = Vec::new();
        pending.push((root, download));
        assert(pending_keys(pending@)[0] == rk);
        VdmGraphWalk { pending, files }
    }

    /// A walk that starts at several targets; the last is visited first.
    pub fn with_roots(roots: Vec<PendingFile>) -> (r: Self)
        ensures
            r.wf(),
            r.pending_view() == roots@,
            r.files_view().keys() == Seq::<Seq<char>>::empty(),
            dependencies_known(r.files_view(), pending_keys(r.pending_view())),
    {
        let files: UrlMap<VitGraphFile> = UrlMap::new();
        proof {
            assert forall|k: Seq<char>| #[trigger] files.lookup(k) is None by {
                assert(key_index(files.keys(), k) is None);
            }
        }
        VdmGraphWalk { pending: roots, files }
    }

    /// Whether the file `key` was visited.
    pub fn contains(&self, key: &VdmManifestTargetUrl) -> (r: bool)
        requires
            self.wf(),
        ensures
            r == (self.files_view().lookup(key@) is Some),
    {
        self.files.contains_key(key)
    }

    /// The next target to visit: pending targets already visited are dropped,
    /// and the last one not visited is taken.
    pub fn next(&mut self) -> (r: Option<PendingFile>)
        requires
            old(self).wf(),
        ensures
            final(self).wf(),
            final(self).files_view() == old(self).files_view(),
            match spec_next_index(old(self).pending_view(), old(self).files_view()) {
                Some(j) => r == Some(old(self).pending_view()[j]) && final(self).pending_view() == old(self).pending_view().take(j),
                None => r is None && final(self).pending_view() == Seq::<PendingFile>::empty(),
            },
            forall|x: Seq<char>| key_known(old(self).files_view(), pending_keys(old(self).pending_view()), x)
                ==> #[trigger] key_known(final(self).files_view(), pending_keys(final(self).pending_view()) + taken_keys(r), x),
            dependencies_known(old(self).files_view(), pending_keys(old(self).pending_view()))
                ==> dependencies_known(final(self).files_view(), pending_keys(final(self).pending_view()) + taken_keys(r)),
    {
        let ghost start = self.pending@;
        loop
            invariant
                self.wf(),
                self.files == old(self).files,
                start == old(self).pending@,
                self.pending@.len() <= start.len(),
                self.pending@ == start.take(self.pending@.len() as int),
                spec_next_index(start, self.files) == spec_next_index(self.pending@, self.files),
            decreases self.pending@.len(),
        {
            let ghost before = self.pending@;
            match self.pending.pop() {
                None => {
                    assert(before.len() == 0);
                    assert(pending_keys(self.pending@) + taken_keys(None) =~= next_keys(start, self.files));
                    proof {
                        lemma_next_known(start, self.files);
                    }
                    return None;
                },
                Some(item) => {
                    assert(before.drop_last() =~= self.pending@);
                    assert(item == before.last());
                    if !self.files.contains_key(item.0.key()) {
                        assert(spec_next_index(before, self.files) == Some(before.len() - 1));
                        assert(start[before.len() - 1] == item);
                        assert(self.pending@ =~= start.take(before.len() - 1));
                        assert(pending_keys(self.pending@) + taken_keys(Some(item)) == next_keys(start, self.files));
                        proof {
                            lemma_next_known(start, self.files);
                        }
                        return Some(item);
                    }
                    assert(self.pending@ =~= start.take(self.pending@.len() as int));
                },
            }
        }
    }

    /// Records the visited `target` with its content and the targets its
    /// imports resolved to: its dependencies are their keys, sorted and each
    /// once, and those not visited yet are queued in order.
    pub fn record(&mut self, target: VdmAnyTarget, download: VdmSourceFile, resolved: Vec<VdmAnyTarget>)
        requires
            old(self).wf(),
            old(self).files_view().lookup(target.key_view()) is None,
        ensures
            final(self).wf(),
            final(self).pending_view() == old(self).pending_view() + spec_unseen(resolved@, old(self).files_view()),
            final(self).files_view().lookup(target.key_view()) matches Some(f) && f.target == target
                && f.download == download
                && strictly_sorted_seqs(keys_view(f.dependencies@))
                && keys_view(f.dependencies@).to_set() == target_keys(resolved@).to_set(),
            forall|k: Seq<char>| k != target.key_view() ==> #[trigger] final(self).files_view().lookup(k) == old(self).files_view().lookup(k),
            final(self).files_view().keys().to_set() == old(self).files_view().keys().to_set().insert(target.key_view()),
            forall|x: Seq<char>| key_known(old(self).files_view(), pending_keys(old(self).pending_view()).push(target.key_view()), x)
                ==> #[trigger] key_known(final(self).files_view(), pending_keys(final(self).pending_view()), x),
            dependencies_known(old(self).files_view(), pending_keys(old(self).pending_view()).push(target.key_view()))
                ==> dependencies_known(final(self).files_view(), pending_keys(final(self).pending_view())),
    {
        let ghost orig = resolved@;
        let mut names: Vec<String> = Vec::new();
        let mut i: usize = 0;
        while i < resolved.len()
            invariant
                i <= resolved@.len(),
                strings_view(names@) == target_keys(resolved@).take(i as int),
            decreases resolved@.len() - i,
        {
            let ghost before = strings_view(names@);
            names.push(resolved[i].key().as_str().to_owned());
            assert(strings_view(names@) =~= before.push(resolved@[i as int].key_view()));
            assert(target_keys(resolved@).take(i + 1) =~= target_keys(resolved@).take(i as int).push(resolved@[i as int].key_view()));
            i += 1;
        }
        assert(target_keys(resolved@).take(resolved@.len() as int) =~= target_keys(resolved@));
        let unique = sorted_unique_strings(names);
        let mut dependencies: Vec<VdmManifestTargetUrl> = Vec::new();
        let mut j: usize = 0;
        while j < unique.len()
            invariant
                j <= unique@.len(),
                keys_view(dependencies@) == strings_view(unique@).take(j as int),
            decreases unique@.len() - j,
        {
            let ghost before = keys_view(dependencies@);
            dependencies.push(VdmManifestTargetUrl::new(unique[j].as_str()));
            assert(keys_view(dependencies@) =~= before.push(unique@[j as int]@));
            assert(strings_view(unique@).take(j + 1) =~= strings_view(unique@).take(j as int).push(unique@[j as int]@));
            j += 1;
        }
        assert(strings_view(unique@).take(unique@.len() as int) =~= strings_view(unique@));
        let ghost old_pending = self.pending@;
        let mut rest = resolved;
        let mut k: usize = 0;
        let n = rest.len();
        assert(orig.take(0) =~= Seq::<VdmAnyTarget>::empty());
        assert(self.pending@ =~= old_pending + spec_unseen(orig.take(0), self.files));
        while k < n
            invariant
                self.wf(),
                self.files == old(self).files,
                n == orig.len(),
                k <= n,
                rest@ == orig.skip(k as int),
                self.pending@ == old_pending + spec_unseen(orig.take(k as int), self.files),
            decreases n - k,
        {
            let t = rest.remove(0);
            assert(t == orig[k as int]);
            assert(orig.skip(k as int).remove(0) =~= orig.skip(k + 1));
            assert(orig.take(k + 1).drop_last() =~= orig.take(k as int));
            assert(orig.take(k + 1).last() == orig[k as int]);
            if !self.files.contains_key(t.key()) {
                self.pending.push((t, None));
            }
            k += 1;
        }
        assert(orig.take(n as int) =~= orig);
        let key = target.key().clone();
        let ghost kv = key@;
        let ghost before = self.files;
        self.files.insert(key, VitGraphFile { target, download, dependencies });
        proof {
            assert forall|k2: Seq<char>| #[trigger] self.files.lookup(k2) is Some implies self.files.lookup(k2)->0.target.key_view() == k2 by {
                if k2 != kv {
                    assert(self.files.lookup(k2) == before.lookup(k2));
                }
            }
            let unseen = spec_unseen(orig, before);
            let old_keys = pending_keys(old_pending).push(kv);
            let new_keys = pending_keys(self.pending@);
            assert(self.pending@ == old_pending + unseen);
            assert(new_keys =~= pending_keys(old_pending) + pending_keys(unseen));
            assert forall|x: Seq<char>| key_known(before, old_keys, x) implies #[trigger] key_known(self.files, new_keys, x) by {
                if x != kv && before.lookup(x) is None {
                    let m = choose|m: int| 0 <= m < old_keys.len() && old_keys[m] == x;
                    assert(new_keys[m] == x);
                }
            }
            lemma_unseen_covers(orig, before);
            if dependencies_known(before, old_keys) {
                assert forall|k2: Seq<char>, i: int| 0 <= i < dependency_keys(self.files, k2).len()
                    implies key_known(self.files, new_keys, #[trigger] dependency_keys(self.files, k2)[i]) by {
                    let d = dependency_keys(self.files, k2)[i];
                    if k2 != kv {
                        assert(self.files.lookup(k2) == before.lookup(k2));
                        assert(dependency_keys(self.files, k2) == dependency_keys(before, k2));
                        assert(key_known(before, old_keys, d));
                    } else {
                        let ds = keys_view(self.files.lookup(kv)->0.dependencies@);
                        assert(ds.contains(d));
                        assert(ds.to_set().contains(d));
                        assert(target_keys(orig).to_set().contains(d));
                        let m = choose|m: int| 0 <= m < target_keys(orig).len() && target_keys(orig)[m] == d;
                        assert(orig[m].key_view() == d);
                        if before.lookup(d) is Some && d != kv {
                            assert(self.files.lookup(d) == before.lookup(d));
                        } else if d != kv {
                            let u = choose|u: int| 0 <= u < pending_keys(unseen).len() && pending_keys(unseen)[u] == d;
                            assert(new_keys[pending_keys(old_pending).len() + u] == d);
                        }
                    }
                }
            }
        }
    }

    /// The visited files.
    pub fn finish(self) -> (r: UrlMap<VitGraphFile>)
        ensures
            r == self.files_view(),
    {
        self.files
    }
}

/// The file name of a `/`-separated path, as `Path::file_name` reads it: its
/// last component that is not `.`, unless that is `..`.
pub open spec fn spec_file_name(path: Seq<char>) -> Option<Seq<char>> {
    let parts = plain_parts(split_char(path, '/'));
    if parts.len() == 0 || parts.last() == seq!['.', '.'] {
        None
    } else {
        Some(parts.last())
    }
}

/// A piece of a path that is a component: not empty and not `.`.
pub open spec fn plain_part(p: Seq<char>) -> bool {
    p.len() > 0 && p != seq!['.']
}

/// The pieces of a path that are components.
pub open spec fn plain_parts(s: Seq<Seq<char>>) -> Seq<Seq<char>> {
    s.filter(|p: Seq<char>| plain_part(p))
}

/// The extension of a file name, as `Path::extension` reads it: what follows
/// its last `.`, unless that `.` starts the name.
pub open spec fn spec_extension(name: Seq<char>) -> Option<Seq<char>> {
    match rfind_char(name, '.') {
        Some(i) => if i > 0 {
            Some(name.skip(i + 1))
        } else {
            None
        },
        None => None,
    }
}

/// A JavaScript or TypeScript source, by extension.
pub open spec fn spec_is_javascript_path(path: Seq<char>) -> bool {
    match spec_file_name(path) {
        Some(name) => match spec_extension(name) {
            Some(e) => e == "js"@ || e == "jsx"@ || e == "mjs"@ || e == "cjs"@ || e == "ts"@ || e == "tsx"@
                || e == "mts"@ || e == "cts"@,
            None => false,
        },
        None => false,
    }
}

fn is_plain_part(p: &Vec<char>) -> (r: bool)
    ensures
        r == plain_part(p@),
{
    if p.len() == 0 {
        return false;
    }
    if p.len() == 1 && p[0] == '.' {
        assert(p@ =~= seq!['.']);
        return false;
    }
    proof {
        if p@ == seq!['.'] {
            assert(p@.len() == 1);
        }
    }
    true
}

/// The file name of a path.
pub fn file_name(path: &str) -> (r: Option<Vec<char>>)
    ensures
        crate::path::opt_chars_view(r) == spec_file_name(path@),
{
    let parts = split_char_exec(chars_of(path).as_slice(), '/');
    let ghost pv = parts@.map_values(|v: Vec<char>| v@);
    let mut last: Option<usize> = None;
    let mut i: usize = 0;
    assert(plain_parts(pv.take(0)) =~= Seq::<Seq<char>>::empty());
    while i < parts.len()
        invariant
            i <= parts@.len(),
            pv == parts@.map_values(|v: Vec<char>| v@),
            pv == split_char(path@, '/'),
            match last {
                Some(l) => l < i && plain_parts(pv.take(i as int)).len() > 0 && plain_parts(pv.take(i as int)).last() == pv[l as int],
                None => plain_parts(pv.take(i as int)).len() == 0,
            },
        decreases parts@.len() - i,
    {
        assert(pv.take(i + 1) =~= pv.take(i as int).push(pv[i as int]));
        proof {
            pv.take(i as int).lemma_filter_push(pv[i as int], |p: Seq<char>| plain_part(p));
            assert(pv[i as int] == parts@[i as int]@);
        }
        if is_plain_part(&parts[i]) {
            assert(plain_parts(pv.take(i + 1)) == plain_parts(pv.take(i as int)).push(pv[i as int]));
            last = Some(i);
        } else {
            assert(plain_parts(pv.take(i + 1)) == plain_parts(pv.take(i as int)));
        }
        i += 1;
    }
    assert(pv.take(pv.len() as int) =~= pv);
    match last {
        None => None,
        Some(l) => {
            let p = &parts[l];
            if p.len() == 2 && p[0] == '.' && p[1] == '.' {
                assert(p@ =~= seq!['.', '.']);
                None
            } else {
                proof {
                    if p@ == seq!['.', '.'] {
                        assert(p@.len() == 2);
                    }
                }
                Some(p.clone())
            }
        },
    }
}

/// Whether a path names a JavaScript or TypeScript source.
pub fn is_javascript_path(path: &str) -> (r: bool)
    ensures
        r == spec_is_javascript_path(path@),
{
    let name = match file_name(path) {
        None => return false,
        Some(n) => n,
    };
    let n = name.len();
    let ext = match rfind_char_exec(name.as_slice(), '.') {
        Some(i) => if i > 0 {
            proof {
                crate::text::lemma_rfind_char_bounds(name@, '.');
            }
            crate::text::slice_chars(name.as_slice(), i + 1, n)
        } else {
            return false;
        },
        None => return false,
    };
    assert(spec_extension(name@) == Some(ext@)) by {
        assert(ext@ =~= name@.skip(rfind_char(name@, '.')->0 + 1));
    }
    let js = ["js", "jsx", "mjs", "cjs", "ts", "tsx", "mts", "cts"];
    proof {
        reveal_strlit("js");
        reveal_strlit("jsx");
        reveal_strlit("mjs");
        reveal_strlit("cjs");
        reveal_strlit("ts");
        reveal_strlit("tsx");
        reveal_strlit("mts");
        reveal_strlit("cts");
    }
    let mut found = false;
    let mut k: usize = 0;
    while k < 8
        invariant
            k <= 8,
            js@.len() == 8,
            js@[0]@ == "js"@ && js@[1]@ == "jsx"@ && js@[2]@ == "mjs"@ && js@[3]@ == "cjs"@,
            js@[4]@ == "ts"@ && js@[5]@ == "tsx"@ && js@[6]@ == "mts"@ && js@[7]@ == "cts"@,
            found == exists|q: int| 0 <= q < k && js@[q]@ == ext@,
        decreases 8 - k,
    {
        if eq_chars(chars_of(js[k]).as_slice(), ext.as_slice()) {
            found = true;
        }
        k += 1;
    }
    proof {
        if spec_is_javascript_path(path@) {
            if ext@ == "js"@ { assert(js@[0]@ == ext@); }
            if ext@ == "jsx"@ { assert(js@[1]@ == ext@); }
            if ext@ == "mjs"@ { assert(js@[2]@ == ext@); }
            if ext@ == "cjs"@ { assert(js@[3]@ == ext@); }
            if ext@ == "ts"@ { assert(js@[4]@ == ext@); }
            if ext@ == "tsx"@ { assert(js@[5]@ == ext@); }
            if ext@ == "mts"@ { assert(js@[6]@ == ext@); }
            if ext@ == "cts"@ { assert(js@[7]@ == ext@); }
        }
    }
    found
}

/// The component `node_modules` occurs in the path.
pub open spec fn spec_in_node_modules(path: Seq<char>) -> bool {
    split_char(path, '/').contains("node_modules"@)
}

/// What becomes of an import once the resolver answered: a resolved file
/// inside the source root is kept by its path relative to the root, unless it
/// lies in `node_modules`; a file outside the root is refused.  An import
/// the resolver could not resolve is dropped when it is a bare package name,
/// and refused when it is relative (`.`) or internal (`#`).  The root is that
/// of an HTTP origin when `over_http` holds.
pub open spec fn spec_classify_resolution(resolved: Option<Seq<char>>, root: Seq<char>, specifier: Seq<char>, over_http: bool) -> Result<
    Option<Seq<char>>,
    VdmError,
> {
    match resolved {
        Some(path) => match path_strip_prefix(path, root) {
            None => Err(
                if over_http {
                    error_kind(VdmError::DependencyOutsideOrigin(arbitrary()))
                } else {
                    error_kind(VdmError::DependencyOutsideSource(arbitrary()))
                },
            ),
            Some(rel) => if spec_in_node_modules(rel) {
                Ok(None)
            } else {
                Ok(Some(rel))
            },
        },
        None => if specifier.len() > 0 && (specifier[0] == '.' || specifier[0] == '#') {
            Err(error_kind(VdmError::UnresolvedDependency(arbitrary(), arbitrary())))
        } else {
            Ok(None)
        },
    }
}

/// The view of an optional string result.
pub open spec fn opt_result_view(r: Result<Option<String>, VdmError>) -> Result<Option<Seq<char>>, VdmError> {
    match r {
        Ok(Some(p)) => Ok(Some(p@)),
        Ok(None) => Ok(None),
        Err(e) => Err(error_kind(e)),
    }
}

/// Classifies the resolver's answer for `specifier`, imported by `importer`
/// (`None` when it failed); `over_http` tells that the root is an HTTP origin.
pub fn classify_resolution(resolved: Option<&str>, root: &str, specifier: &str, importer: &str, over_http: bool) -> (r: Result<
    Option<String>,
    VdmError,
>)
    ensures
        opt_result_view(r) == spec_classify_resolution(crate::text::opt_str_view(resolved), root@, specifier@, over_http),
        r matches Err(VdmError::DependencyOutsideSource(p)) ==> crate::text::opt_str_view(resolved) == Some(p@),
        r matches Err(VdmError::DependencyOutsideOrigin(p)) ==> crate::text::opt_str_view(resolved) == Some(p@),
        r matches Err(VdmError::UnresolvedDependency(s, i)) ==> s@ == specifier@ && i@ == importer@,
{
    match resolved {
        Some(path) => match strip_path_prefix(path, root) {
            None => if over_http {
                Err(VdmError::DependencyOutsideOrigin(path.to_owned()))
            } else {
                Err(VdmError::DependencyOutsideSource(path.to_owned()))
            },
            Some(rel) => {
                let parts = split_char_exec(chars_of(rel.as_str()).as_slice(), '/');
                let nm = chars_of("node_modules");
                let mut i: usize = 0;
                while i < parts.len()
                    invariant
                        i <= parts@.len(),
                        parts@.map_values(|v: Vec<char>| v@) == split_char(rel@, '/'),
                        nm@ == "node_modules"@,
                        resolved == Some(path),
                        path_strip_prefix(path@, root@) == Some(rel@),
                        forall|q: int| 0 <= q < i ==> parts@[q]@ != "node_modules"@,
                    decreases parts@.len() - i,
                {
                    if eq_chars(parts[i].as_slice(), nm.as_slice()) {
                        assert(split_char(rel@, '/')[i as int] == "node_modules"@);
                        assert(split_char(rel@, '/').contains("node_modules"@));
                        return Ok(None);
                    }
                    i += 1;
                }
                proof {
                    if split_char(rel@, '/').contains("node_modules"@) {
                        let q = choose|q: int| 0 <= q < split_char(rel@, '/').len() && split_char(rel@, '/')[q] == "node_modules"@;
                        assert(parts@[q]@ == "node_modules"@);
                    }
                }
                Ok(Some(rel))
            },
        },
        None => {
            let s = chars_of(specifier);
            if s.len() > 0 && (s[0] == '.' || s[0] == '#') {
                Err(VdmError::UnresolvedDependency(specifier.to_owned(), importer.to_owned()))
            } else {
                Ok(None)
            }
        },
    }
}

/// The HTTP target a resolved dependency URL names; a URL that reads as a
/// target of another source is refused.
pub open spec fn spec_http_dependency(url: Seq<char>) -> Result<HttpTargetView, VdmError> {
    match spec_parse_target(url) {
        Err(e) => Err(e),
        Ok(AnyTargetView::Http(t)) => Ok(t),
        Ok(AnyTargetView::Git(_)) => Err(VdmError::DependencyOfOtherSource),
    }
}

/// The HTTP target of a resolved dependency URL (`None` for a URL holding a
/// NUL character that the GitHub or Git source would take up).
pub fn http_dependency(url: &str) -> (r: Option<Result<VdmHttpTarget, VdmError>>)
    ensures
        match r {
            None => !no_nul(url@) && (spec_github_input(url@) matches Ok(Some(_)) || spec_git_locate(url@) is Found),
            Some(Ok(t)) => spec_http_dependency(url@) == Ok::<HttpTargetView, VdmError>(t@),
            Some(Err(e)) => spec_http_dependency(url@) == Err::<HttpTargetView, VdmError>(error_kind(e))
                && (e matches VdmError::UnsupportedSource(s) ==> s@ == url@),
        },
{
    match VdmSourceInput::try_parse_target(url) {
        None => None,
        Some(Err(e)) => Some(Err(e)),
        Some(Ok(VdmAnyTarget::Http(t))) => Some(Ok(t)),
        Some(Ok(VdmAnyTarget::Git(_))) => Some(Err(VdmError::DependencyOfOtherSource)),
    }
}

} // verus!
