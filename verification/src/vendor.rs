//! The decisions of vendoring: which locked files a set of roots reaches,
//! which files a grouped target holds, and which version a resolved graph
//! gives its root.
use vstd::prelude::*;

use crate::error::{error_kind, VdmError};
use crate::git::target::{spec_matches_member, GitTargetView, VdmGitTarget};
use crate::graph::VitGraphFile;
use crate::hashing::{content_hash, spec_content_hash};
use crate::lock::file::LockFileView;
use crate::source::input::{AnyTargetView, VdmAnyTarget};
use crate::target::VdmTarget;
use crate::text::{chars_of, eq_chars};
use crate::lock::{keys_view, VdmLock};
use crate::lock::file::VdmLockFile;
use crate::manifest::target::{VdmManifestSourceVersion, VdmManifestTargetUrl};
use crate::map::{key_index, lemma_key_index_in_range, seq_lt, UrlMap};
use crate::sort::{sorted_unique_strings, strictly_sorted_seqs, strings_view};

verus! {

/// The keys one step from `key` in the lock: the dependencies of its record,
/// then the members of its group.
pub open spec fn successors(lock: VdmLock, key: Seq<char>) -> Seq<Seq<char>> {
    (match lock.files.lookup(key) {
        Some(f) => keys_view(f.dependencies@),
        None => Seq::empty(),
    }) + (match lock.globs.lookup(key) {
        Some(ms) => keys_view(ms@),
        None => Seq::empty(),
    })
}

/// The keys reached from `roots` in at most `n` steps.
pub open spec fn reach_within(lock: VdmLock, roots: Seq<Seq<char>>, n: nat) -> Set<Seq<char>>
    decreases n,
{
    if n == 0 {
        roots.to_set()
    } else {
        let prev = reach_within(lock, roots, (n - 1) as nat);
        prev.union(Set::new(|x: Seq<char>| exists|y: Seq<char>| prev.contains(y) && #[trigger] successors(lock, y).contains(x)))
    }
}

/// `x` is reached from `roots` through dependencies and group members.
pub open spec fn spec_reachable(lock: VdmLock, roots: Seq<Seq<char>>, x: Seq<char>) -> bool {
    exists|n: nat| #[trigger] reach_within(lock, roots, n).contains(x)
}

/// What the roots reach is closed under steps: a dependency or member of a
/// reached key is reached, and every root is reached.
pub proof fn lemma_reachable_closed(lock: VdmLock, roots: Seq<Seq<char>>, x: Seq<char>, y: Seq<char>)
    ensures
        roots.contains(x) ==> spec_reachable(lock, roots, x),
        spec_reachable(lock, roots, x) && successors(lock, x).contains(y) ==> spec_reachable(lock, roots, y),
{
    if roots.contains(x) {
        assert(reach_within(lock, roots, 0).contains(x));
    }
    if spec_reachable(lock, roots, x) && successors(lock, x).contains(y) {
        let n = choose|n: nat| #[trigger] reach_within(lock, roots, n).contains(x);
        assert(reach_within(lock, roots, n + 1).contains(y));
    }
}

/// Every key named as a dependency of the first `i` records.
spec fn deps_upto(values: Seq<VdmLockFile>, i: int) -> Seq<Seq<char>>
    decreases i,
{
    if i <= 0 || i > values.len() {
        Seq::empty()
    } else {
        deps_upto(values, i - 1) + keys_view(values[i - 1].dependencies@)
    }
}

/// Every key named as a member of the first `i` groups.
spec fn members_upto(values: Seq<Vec<VdmManifestTargetUrl>>, i: int) -> Seq<Seq<char>>
    decreases i,
{
    if i <= 0 || i > values.len() {
        Seq::empty()
    } else {
        members_upto(values, i - 1) + keys_view(values[i - 1]@)
    }
}

/// Every key a walk from `roots` could meet.
spec fn universe(lock: VdmLock, roots: Seq<Seq<char>>) -> Seq<Seq<char>> {
    roots + deps_upto(lock.files.values(), lock.files.values().len() as int) + members_upto(
        lock.globs.values(),
        lock.globs.values().len() as int,
    )
}

proof fn lemma_deps_upto_contains(values: Seq<VdmLockFile>, i: int, p: int, x: Seq<char>)
    requires
        0 <= p < i <= values.len(),
        keys_view(values[p].dependencies@).contains(x),
    ensures
        deps_upto(values, i).contains(x),
    decreases i,
{
    if p < i - 1 {
        lemma_deps_upto_contains(values, i - 1, p, x);
        let k = choose|k: int| 0 <= k < deps_upto(values, i - 1).len() && #[trigger] deps_upto(values, i - 1)[k] == x;
        assert(deps_upto(values, i)[k] == x);
    } else {
        let k = choose|k: int| 0 <= k < keys_view(values[p].dependencies@).len() && #[trigger] keys_view(values[p].dependencies@)[k] == x;
        assert(deps_upto(values, i)[deps_upto(values, i - 1).len() + k] == x);
    }
}

proof fn lemma_members_upto_contains(values: Seq<Vec<VdmManifestTargetUrl>>, i: int, p: int, x: Seq<char>)
    requires
        0 <= p < i <= values.len(),
        keys_view(values[p]@).contains(x),
    ensures
        members_upto(values, i).contains(x),
    decreases i,
{
    if p < i - 1 {
        lemma_members_upto_contains(values, i - 1, p, x);
        let k = choose|k: int| 0 <= k < members_upto(values, i - 1).len() && #[trigger] members_upto(values, i - 1)[k] == x;
        assert(members_upto(values, i)[k] == x);
    } else {
        let k = choose|k: int| 0 <= k < keys_view(values[p]@).len() && #[trigger] keys_view(values[p]@)[k] == x;
        assert(members_upto(values, i)[members_upto(values, i - 1).len() + k] == x);
    }
}

/// A step from any key stays inside the universe of the walk.
proof fn lemma_successors_in_universe(lock: VdmLock, roots: Seq<Seq<char>>, key: Seq<char>, x: Seq<char>)
    requires
        lock.wf(),
        successors(lock, key).contains(x),
    ensures
        universe(lock, roots).contains(x),
{
    lock.files.lemma_same_length();
    lock.globs.lemma_same_length();
    lemma_key_index_in_range(lock.files.keys(), key);
    lemma_key_index_in_range(lock.globs.keys(), key);
    let d = match lock.files.lookup(key) {
        Some(f) => keys_view(f.dependencies@),
        None => Seq::empty(),
    };
    let g = match lock.globs.lookup(key) {
        Some(ms) => keys_view(ms@),
        None => Seq::empty(),
    };
    let u = universe(lock, roots);
    let du = deps_upto(lock.files.values(), lock.files.values().len() as int);
    let mu = members_upto(lock.globs.values(), lock.globs.values().len() as int);
    let k = choose|k: int| 0 <= k < successors(lock, key).len() && #[trigger] successors(lock, key)[k] == x;
    if k < d.len() {
        assert(d[k] == x);
        let p = key_index(lock.files.keys(), key)->0;
        lemma_deps_upto_contains(lock.files.values(), lock.files.values().len() as int, p, x);
        let j = choose|j: int| 0 <= j < du.len() && #[trigger] du[j] == x;
        assert(u[roots.len() + j] == x);
    } else {
        assert(g[k - d.len()] == x);
        let p = key_index(lock.globs.keys(), key)->0;
        lemma_members_upto_contains(lock.globs.values(), lock.globs.values().len() as int, p, x);
        let j = choose|j: int| 0 <= j < mu.len() && #[trigger] mu[j] == x;
        assert(u[roots.len() + du.len() + j] == x);
    }
}

/// A key reached in `n` steps is reached in every later bound too.
proof fn lemma_reach_monotone(lock: VdmLock, roots: Seq<Seq<char>>, n: nat, m: nat, x: Seq<char>)
    requires
        n <= m,
        reach_within(lock, roots, n).contains(x),
    ensures
        reach_within(lock, roots, m).contains(x),
    decreases m - n,
{
    if n < m {
        lemma_reach_monotone(lock, roots, n, (m - 1) as nat, x);
    }
}

/// A set holding the roots and closed under steps holds every reached key.
proof fn lemma_closed_holds_reach(lock: VdmLock, roots: Seq<Seq<char>>, s: Set<Seq<char>>, n: nat)
    requires
        roots.to_set().subset_of(s),
        forall|y: Seq<char>, x: Seq<char>| s.contains(y) && #[trigger] successors(lock, y).contains(x) ==> s.contains(x),
    ensures
        reach_within(lock, roots, n).subset_of(s),
    decreases n,
{
    if n > 0 {
        lemma_closed_holds_reach(lock, roots, s, (n - 1) as nat);
    }
}

pub(crate) fn contains_key(v: &Vec<VdmManifestTargetUrl>, key: &VdmManifestTargetUrl) -> (r: bool)
    ensures
        r == keys_view(v@).contains(key@),
{
    let mut i: usize = 0;
    while i < v.len()
        invariant
            i <= v@.len(),
            forall|j: int| 0 <= j < i ==> v@[j]@ != key@,
        decreases v@.len() - i,
    {
        if v[i] == *key {
            assert(keys_view(v@)[i as int] == key@);
            return true;
        }
        i += 1;
    }
    proof {
        if keys_view(v@).contains(key@) {
            let j = choose|j: int| 0 <= j < keys_view(v@).len() && #[trigger] keys_view(v@)[j] == key@;
            assert(v@[j]@ == key@);
        }
    }
    false
}

pub(crate) fn copy_keys(v: &Vec<VdmManifestTargetUrl>) -> (r: Vec<VdmManifestTargetUrl>)
    ensures
        keys_view(r@) == keys_view(v@),
{
    let mut r: Vec<VdmManifestTargetUrl> = Vec::new();
    let mut i: usize = 0;
    while i < v.len()
        invariant
            i <= v@.len(),
            keys_view(r@) == keys_view(v@).take(i as int),
        decreases v@.len() - i,
    {
        let ghost before = keys_view(r@);
        r.push(v[i].clone());
        assert(keys_view(r@) =~= before.push(v@[i as int]@));
        assert(keys_view(v@).take(i + 1) =~= keys_view(v@).take(i as int).push(v@[i as int]@));
        i += 1;
    }
    assert(keys_view(v@).take(v@.len() as int) =~= keys_view(v@));
    r
}

/// The keys one step from `key`.
fn successor_keys(lock: &VdmLock, key: &VdmManifestTargetUrl) -> (r: Vec<VdmManifestTargetUrl>)
    requires
        lock.wf(),
    ensures
        keys_view(r@) == successors(*lock, key@),
{
    let mut r = match lock.files.get(key) {
        Some(f) => copy_keys(&f.dependencies),
        None => Vec::new(),
    };
    let ghost first = keys_view(r@);
    assert(first == match lock.files.lookup(key@) {
        Some(f) => keys_view(f.dependencies@),
        None => Seq::<Seq<char>>::empty(),
    });
    let mut more = match lock.globs.get(key) {
        Some(ms) => copy_keys(ms),
        None => Vec::new(),
    };
    let ghost second = keys_view(more@);
    r.append(&mut more);
    assert(keys_view(r@) =~= first + second);
    r
}

/// The locked keys that `roots` reach through dependencies and group members,
/// in order and each once.
pub fn reachable(lock: &VdmLock, roots: &Vec<VdmManifestTargetUrl>) -> (r: Vec<VdmManifestTargetUrl>)
    requires
        lock.wf(),
    ensures
        strictly_sorted_seqs(keys_view(r@)),
        forall|x: Seq<char>| #[trigger] keys_view(r@).contains(x) <==> spec_reachable(*lock, keys_view(roots@), x),
{
    let ghost rv = keys_view(roots@);
    let ghost u = universe(*lock, rv);
    let mut seen: Vec<VdmManifestTargetUrl> = Vec::new();
    let mut pending = copy_keys(roots);
    proof {
        assert forall|x: Seq<char>| keys_view(pending@).contains(x) implies u.contains(x) && spec_reachable(*lock, rv, x) by {
            let k = choose|k: int| 0 <= k < rv.len() && #[trigger] rv[k] == x;
            assert(u[k] == x);
            assert(reach_within(*lock, rv, 0).contains(x));
        }
        assert(keys_view(seen@) =~= Seq::<Seq<char>>::empty());
    }
    while pending.len() > 0
        invariant
            lock.wf(),
            rv == keys_view(roots@),
            u == universe(*lock, rv),
            keys_view(seen@).no_duplicates(),
            forall|x: Seq<char>| #[trigger] keys_view(seen@).contains(x) ==> u.contains(x) && spec_reachable(*lock, rv, x),
            forall|x: Seq<char>| #[trigger] keys_view(pending@).contains(x) ==> u.contains(x) && spec_reachable(*lock, rv, x),
            forall|x: Seq<char>| #[trigger] rv.contains(x) ==> keys_view(seen@).contains(x) || keys_view(pending@).contains(x),
            forall|y: Seq<char>, x: Seq<char>| keys_view(seen@).contains(y) && #[trigger] successors(*lock, y).contains(x) ==> keys_view(
                seen@,
            ).contains(x) || keys_view(pending@).contains(x),
        decreases u.len() - seen@.len(), pending@.len(),
    {
        let ghost before_seen = keys_view(seen@);
        let ghost before_pending = keys_view(pending@);
        let key = pending.pop().unwrap();
        let ghost kv = key@;
        assert(before_pending =~= keys_view(pending@).push(kv));
        assert(before_pending.contains(kv)) by {
            assert(before_pending[before_pending.len() - 1] == kv);
        }
        proof {
            assert(u.contains(kv) && spec_reachable(*lock, rv, kv));
            assert forall|x: Seq<char>| keys_view(pending@).contains(x) implies before_pending.contains(x) by {
                let k = choose|k: int| 0 <= k < keys_view(pending@).len() && #[trigger] keys_view(pending@)[k] == x;
                assert(before_pending[k] == x);
            }
            assert forall|x: Seq<char>| before_pending.contains(x) implies keys_view(pending@).contains(x) || x == kv by {
                let k = choose|k: int| 0 <= k < before_pending.len() && #[trigger] before_pending[k] == x;
                if k < before_pending.len() - 1 {
                    assert(keys_view(pending@)[k] == x);
                }
            }
        }
        if contains_key(&seen, &key) {
            proof {
                assert forall|x: Seq<char>| #[trigger] keys_view(pending@).contains(x) implies u.contains(x) && spec_reachable(*lock, rv, x) by {
                    assert(before_pending.contains(x));
                }
            }
            continue;
        }
        let succ = successor_keys(lock, &key);
        let ghost sv = keys_view(succ@);
        seen.push(key);
        let mut succ = succ;
        pending.append(&mut succ);
        proof {
            assert(keys_view(seen@) =~= before_seen.push(kv));
            assert(keys_view(pending@) =~= before_pending.drop_last() + sv);
            assert forall|x: Seq<char>| keys_view(seen@).contains(x) <==> (before_seen.contains(x) || x == kv) by {
                if keys_view(seen@).contains(x) {
                    let k = choose|k: int| 0 <= k < keys_view(seen@).len() && #[trigger] keys_view(seen@)[k] == x;
                    if k < before_seen.len() {
                        assert(before_seen[k] == x);
                    }
                }
                if before_seen.contains(x) {
                    let k = choose|k: int| 0 <= k < before_seen.len() && #[trigger] before_seen[k] == x;
                    assert(keys_view(seen@)[k] == x);
                }
                if x == kv {
                    assert(keys_view(seen@)[before_seen.len() as int] == x);
                }
            }
            assert forall|x: Seq<char>| keys_view(pending@).contains(x) <==> (keys_view(pending@).take(before_pending.len() - 1).contains(x) || sv.contains(x)) by {
                let pv = keys_view(pending@);
                let head = before_pending.drop_last();
                assert(pv.take(before_pending.len() - 1) =~= head);
                if pv.contains(x) {
                    let k = choose|k: int| 0 <= k < pv.len() && #[trigger] pv[k] == x;
                    if k < head.len() {
                        assert(head[k] == x);
                    } else {
                        assert(sv[k - head.len()] == x);
                    }
                }
                if head.contains(x) {
                    let k = choose|k: int| 0 <= k < head.len() && #[trigger] head[k] == x;
                    assert(pv[k] == x);
                }
                if sv.contains(x) {
                    let k = choose|k: int| 0 <= k < sv.len() && #[trigger] sv[k] == x;
                    assert(pv[head.len() + k] == x);
                }
            }
            assert forall|x: Seq<char>| before_pending.drop_last().contains(x) implies keys_view(pending@).take(before_pending.len() - 1).contains(x) by {
                assert(keys_view(pending@).take(before_pending.len() - 1) =~= before_pending.drop_last());
            }
            assert forall|x: Seq<char>| keys_view(pending@).take(before_pending.len() - 1).contains(x) implies before_pending.contains(x) by {
                assert(keys_view(pending@).take(before_pending.len() - 1) =~= before_pending.drop_last());
                let k = choose|k: int| 0 <= k < before_pending.len() - 1 && #[trigger] before_pending.drop_last()[k] == x;
                assert(before_pending[k] == x);
            }
            let n = choose|n: nat| #[trigger] reach_within(*lock, rv, n).contains(kv);
            assert forall|x: Seq<char>| sv.contains(x) implies u.contains(x) && spec_reachable(*lock, rv, x) by {
                lemma_successors_in_universe(*lock, rv, kv, x);
                assert(reach_within(*lock, rv, n + 1).contains(x));
            }
            assert forall|x: Seq<char>| #[trigger] rv.contains(x) implies keys_view(seen@).contains(x) || keys_view(pending@).contains(x) by {
                if before_pending.contains(x) && x != kv {
                    assert(before_pending.drop_last().contains(x)) by {
                        let k = choose|k: int| 0 <= k < before_pending.len() && #[trigger] before_pending[k] == x;
                        assert(before_pending.drop_last()[k] == x);
                    }
                    assert(keys_view(pending@).take(before_pending.len() - 1).contains(x));
                }
            }
            assert forall|y: Seq<char>, x: Seq<char>| keys_view(seen@).contains(y) && #[trigger] successors(*lock, y).contains(x) implies keys_view(
                seen@,
            ).contains(x) || keys_view(pending@).contains(x) by {
                if y == kv {
                    assert(sv.contains(x));
                } else {
                    assert(before_seen.contains(y));
                    if before_pending.contains(x) && x != kv {
                        assert(before_pending.drop_last().contains(x)) by {
                            let k = choose|k: int| 0 <= k < before_pending.len() && #[trigger] before_pending[k] == x;
                            assert(before_pending.drop_last()[k] == x);
                        }
                        assert(keys_view(pending@).take(before_pending.len() - 1).contains(x));
                    }
                }
            }
            assert forall|x: Seq<char>| #[trigger] keys_view(pending@).contains(x) implies u.contains(x) && spec_reachable(*lock, rv, x) by {
                if keys_view(pending@).take(before_pending.len() - 1).contains(x) {
                    assert(before_pending.contains(x));
                }
            }
            assert forall|x: Seq<char>| #[trigger] keys_view(seen@).contains(x) implies u.contains(x) && spec_reachable(*lock, rv, x) by {
                if before_seen.contains(x) {
                }
            }
            assert(keys_view(seen@).no_duplicates()) by {
                assert(!before_seen.contains(kv));
                assert forall|a: int, b: int| 0 <= a < b < keys_view(seen@).len() implies keys_view(seen@)[a] != keys_view(seen@)[b] by {
                    if b == before_seen.len() {
                        assert(keys_view(seen@)[a] == before_seen[a]);
                    } else {
                        assert(keys_view(seen@)[a] == before_seen[a] && keys_view(seen@)[b] == before_seen[b]);
                    }
                }
            }
            keys_view(seen@).unique_seq_to_set();
            u.lemma_cardinality_of_set();
            assert(keys_view(seen@).to_set().subset_of(u.to_set())) by {
                assert forall|x: Seq<char>| keys_view(seen@).to_set().contains(x) implies u.to_set().contains(x) by {
                    assert(keys_view(seen@).contains(x));
                }
            }
            vstd::set_lib::lemma_len_subset(keys_view(seen@).to_set(), u.to_set());
            assert(seen@.len() == keys_view(seen@).len());
        }
    }
    proof {
        let s = keys_view(seen@).to_set();
        assert forall|y: Seq<char>, x: Seq<char>| s.contains(y) && #[trigger] successors(*lock, y).contains(x) implies s.contains(x) by {
            assert(keys_view(seen@).contains(y));
            assert(keys_view(pending@) =~= Seq::<Seq<char>>::empty());
        }
        assert(rv.to_set().subset_of(s)) by {
            assert forall|x: Seq<char>| rv.to_set().contains(x) implies s.contains(x) by {
                assert(rv.contains(x));
            }
        }
        assert forall|x: Seq<char>| spec_reachable(*lock, rv, x) implies keys_view(seen@).contains(x) by {
            let n = choose|n: nat| #[trigger] reach_within(*lock, rv, n).contains(x);
            lemma_closed_holds_reach(*lock, rv, s, n);
        }
    }
    let mut names: Vec<String> = Vec::new();
    let mut i: usize = 0;
    while i < seen.len()
        invariant
            i <= seen@.len(),
            strings_view(names@) == keys_view(seen@).take(i as int),
        decreases seen@.len() - i,
    {
        let ghost before = strings_view(names@);
        names.push(seen[i].as_str().to_owned());
        assert(strings_view(names@) =~= before.push(seen@[i as int]@));
        assert(keys_view(seen@).take(i + 1) =~= keys_view(seen@).take(i as int).push(seen@[i as int]@));
        i += 1;
    }
    assert(keys_view(seen@).take(seen@.len() as int) =~= keys_view(seen@));
    let unique = sorted_unique_strings(names);
    let mut r: Vec<VdmManifestTargetUrl> = Vec::new();
    let mut j: usize = 0;
    while j < unique.len()
        invariant
            j <= unique@.len(),
            keys_view(r@) == strings_view(unique@).take(j as int),
        decreases unique@.len() - j,
    {
        let ghost before = keys_view(r@);
        r.push(VdmManifestTargetUrl::new(unique[j].as_str()));
        assert(keys_view(r@) =~= before.push(unique@[j as int]@));
        assert(strings_view(unique@).take(j + 1) =~= strings_view(unique@).take(j as int).push(unique@[j as int]@));
        j += 1;
    }
    assert(strings_view(unique@).take(unique@.len() as int) =~= strings_view(unique@));
    proof {
        assert forall|x: Seq<char>| #[trigger] keys_view(r@).contains(x) <==> spec_reachable(*lock, rv, x) by {
            assert(keys_view(r@).to_set().contains(x) == keys_view(r@).contains(x));
            assert(keys_view(seen@).to_set().contains(x) == keys_view(seen@).contains(x));
        }
    }
    r
}

/// The version a resolved graph gives its root `key`: that of the root's
/// file, or of the first file when the root itself is not a file of the graph.
pub open spec fn spec_graph_version(graph: UrlMap<VitGraphFile>, key: Seq<char>) -> Result<Seq<char>, VdmError> {
    match graph.lookup(key) {
        Some(f) => Ok(f.target.version_view()),
        None => if graph.keys().len() == 0 {
            Err(VdmError::EmptyGraph)
        } else {
            Ok(graph.values()[0].target.version_view())
        },
    }
}

/// The version a resolved graph gives its root `key`.
pub fn graph_version(graph: &UrlMap<VitGraphFile>, key: &VdmManifestTargetUrl) -> (r: Result<VdmManifestSourceVersion, VdmError>)
    requires
        graph.wf(),
    ensures
        match spec_graph_version(*graph, key@) {
            Ok(v) => r matches Ok(x) && x@ == v,
            Err(e) => r matches Err(x) && x == e,
        },
{
    proof {
        graph.lemma_same_length();
    }
    match graph.get(key) {
        Some(f) => Ok(f.target.version().clone()),
        None => {
            if graph.len() == 0 {
                Err(VdmError::EmptyGraph)
            } else {
                let (_, f) = graph.entry(0);
                Ok(f.target.version().clone())
            }
        },
    }
}

/// The members of the group `group` among the files of a graph (in key
/// order): the Git files it selects; the first failure stops.
pub open spec fn spec_glob_members(group: GitTargetView, keys: Seq<Seq<char>>, files: Seq<VitGraphFile>) -> Result<
    Seq<Seq<char>>,
    VdmError,
>
    decreases files.len(),
{
    if files.len() == 0 || keys.len() != files.len() {
        Ok(Seq::empty())
    } else {
        match spec_glob_members(group, keys.drop_last(), files.drop_last()) {
            Err(e) => Err(e),
            Ok(ms) => match files.last().target@ {
                AnyTargetView::Git(g) => match spec_matches_member(group, g) {
                    Err(e) => Err(e),
                    Ok(true) => Ok(ms.push(keys.last())),
                    Ok(false) => Ok(ms),
                },
                AnyTargetView::Http(_) => Ok(ms),
            },
        }
    }
}

/// Whether a target records the files it selects as a group: when it is a
/// glob, or when the graph does not hold it as a file.
pub open spec fn spec_records_group(target: GitTargetView, graph: UrlMap<VitGraphFile>) -> bool {
    crate::git::target::spec_glob_pattern(target.path) is Some || graph.lookup(target.key) is None
}

/// `new` holds the members `ms` at `key` and agrees with `old` elsewhere.
pub open spec fn spec_group_recorded(
    new: UrlMap<Vec<VdmManifestTargetUrl>>,
    old: UrlMap<Vec<VdmManifestTargetUrl>>,
    key: Seq<char>,
    ms: Seq<Seq<char>>,
) -> bool {
    &&& match new.lookup(key) {
        Some(v) => keys_view(v@) == ms,
        None => false,
    }
    &&& forall|k: Seq<char>| k != key ==> #[trigger] new.lookup(k) == old.lookup(k)
}

/// What recording the group of `t` gives: its glob refused, nothing when it
/// records no group, or its members recorded at its key.
pub open spec fn spec_record_glob_result(
    t: GitTargetView,
    graph: UrlMap<VitGraphFile>,
    old: UrlMap<Vec<VdmManifestTargetUrl>>,
    new: UrlMap<Vec<VdmManifestTargetUrl>>,
    r: Result<(), VdmError>,
) -> bool {
    if crate::git::target::spec_glob_rejected(t.path) {
        (r matches Err(VdmError::InvalidGlob(p)) && p@ == t.path) && new == old
    } else if !spec_records_group(t, graph) {
        r is Ok && new == old
    } else {
        match spec_glob_members(t, graph.keys(), graph.values()) {
            Err(e) => (r matches Err(x) && error_kind(x) == e) && new == old,
            Ok(ms) => r is Ok && spec_group_recorded(new, old, t.key, ms),
        }
    }
}

/// Records, for a Git target that stands for a group, the keys of the graph
/// files it selects as its members.
pub fn record_glob(lock: &mut VdmLock, target: Option<&VdmGitTarget>, graph: &UrlMap<VitGraphFile>) -> (r: Result<(), VdmError>)
    requires
        old(lock).wf(),
        graph.wf(),
    ensures
        final(lock).wf(),
        final(lock).files == old(lock).files,
        final(lock).updates == old(lock).updates,
        match target {
            None => r is Ok && final(lock).globs == old(lock).globs,
            Some(t) => spec_record_glob_result(t@, *graph, old(lock).globs, final(lock).globs, r),
        },
{
    let t = match target {
        None => return Ok(()),
        Some(t) => t,
    };
    let is_glob = match t.glob() {
        Err(e) => return Err(e),
        Ok(p) => p.is_some(),
    };
    if !(is_glob || !graph.contains_key(t.key())) {
        return Ok(());
    }
    proof {
        graph.lemma_same_length();
    }
    let ghost keys = graph.keys();
    let ghost values = graph.values();
    let mut members: Vec<VdmManifestTargetUrl> = Vec::new();
    let mut i: usize = 0;
    assert(keys.take(0) =~= Seq::<Seq<char>>::empty());
    assert(values.take(0) =~= Seq::<VitGraphFile>::empty());
    assert(keys_view(members@) =~= Seq::<Seq<char>>::empty());
    while i < graph.len()
        invariant
            *lock == *old(lock),
            lock.wf(),
            target == Some(t),
            !crate::git::target::spec_glob_rejected(t@.path),
            spec_records_group(t@, *graph),
            keys == graph.keys(),
            values == graph.values(),
            keys.len() == values.len(),
            i <= keys.len(),
            spec_glob_members(t@, keys.take(i as int), values.take(i as int)) == Ok::<Seq<Seq<char>>, VdmError>(keys_view(members@)),
        decreases keys.len() - i,
    {
        assert(keys.take(i + 1).drop_last() =~= keys.take(i as int));
        assert(values.take(i + 1).drop_last() =~= values.take(i as int));
        let (key, file) = graph.entry(i);
        let ghost before = keys_view(members@);
        match &file.target {
            VdmAnyTarget::Git(g) => match t.matches_member(g) {
                Err(e) => {
                    proof {
                        assert(spec_glob_members(t@, keys.take(i + 1), values.take(i + 1)) == Err::<Seq<Seq<char>>, VdmError>(e));
                        lemma_members_error_stays(t@, keys, values, i as int + 1);
                        assert(keys.take(keys.len() as int) =~= keys);
                        assert(values.take(values.len() as int) =~= values);
                    }
                    return Err(e);
                },
                Ok(true) => {
                    members.push(key.clone());
                    assert(keys_view(members@) =~= before.push(keys[i as int]));
                },
                Ok(false) => {},
            },
            VdmAnyTarget::Http(_) => {},
        }
        i += 1;
    }
    assert(keys.take(keys.len() as int) =~= keys);
    assert(values.take(values.len() as int) =~= values);
    lock.globs.insert(t.key().clone(), members);
    Ok(())
}

proof fn lemma_members_error_stays(group: GitTargetView, keys: Seq<Seq<char>>, files: Seq<VitGraphFile>, n: int)
    requires
        keys.len() == files.len(),
        0 <= n <= files.len(),
        spec_glob_members(group, keys.take(n), files.take(n)) is Err,
    ensures
        spec_glob_members(group, keys, files) == spec_glob_members(group, keys.take(n), files.take(n)),
    decreases files.len() - n,
{
    if n < files.len() {
        assert(keys.take(n + 1).drop_last() =~= keys.take(n));
        assert(files.take(n + 1).drop_last() =~= files.take(n));
        lemma_members_error_stays(group, keys, files, n + 1);
    } else {
        assert(keys.take(n) =~= keys);
        assert(files.take(n) =~= files);
    }
}

/// A file of the graph that is already locked must be locked at the revision
/// and with the content it resolved to.
pub open spec fn spec_agrees_with_lock(lock: VdmLock, key: Seq<char>, f: VitGraphFile) -> bool {
    match lock.files.lookup(key) {
        Some(existing) => existing.revision@ == f.download.revision@ && existing.hash@ == spec_content_hash(f.download.bytes@),
        None => true,
    }
}

/// Checks that every file of a resolved graph agrees with the lock.
pub fn check_graph_against_lock(lock: &VdmLock, graph: &UrlMap<VitGraphFile>) -> (r: Result<(), VdmError>)
    requires
        lock.wf(),
        graph.wf(),
    ensures
        r is Ok <==> forall|i: int| 0 <= i < graph.keys().len() ==> spec_agrees_with_lock(*lock, #[trigger] graph.keys()[i], graph.values()[i]),
        r matches Err(e) ==> exists|i: int| 0 <= i < graph.keys().len()
            && !spec_agrees_with_lock(*lock, #[trigger] graph.keys()[i], graph.values()[i])
            && (forall|j: int| 0 <= j < i ==> spec_agrees_with_lock(*lock, #[trigger] graph.keys()[j], graph.values()[j]))
            && (e matches VdmError::LockedAtConflictingRevision(k) && k@ == graph.keys()[i]),
{
    proof {
        graph.lemma_same_length();
    }
    let mut i: usize = 0;
    while i < graph.len()
        invariant
            lock.wf(),
            graph.keys().len() == graph.values().len(),
            i <= graph.keys().len(),
            forall|j: int| 0 <= j < i ==> spec_agrees_with_lock(*lock, #[trigger] graph.keys()[j], graph.values()[j]),
        decreases graph.keys().len() - i,
    {
        let (key, file) = graph.entry(i);
        match lock.files.get(key) {
            Some(existing) => {
                let hash = content_hash(file.download.bytes.as_slice());
                if existing.revision != file.download.revision || !eq_chars(chars_of(existing.hash.as_str()).as_slice(), hash.as_slice()) {
                    assert(!spec_agrees_with_lock(*lock, graph.keys()[i as int], graph.values()[i as int]));
                    return Err(VdmError::LockedAtConflictingRevision(key.as_str().to_owned()));
                }
            },
            None => {},
        }
        i += 1;
    }
    Ok(())
}

/// The lock holds a complete graph for the manifest's targets: each target
/// is locked as a direct file at the manifest's version, and every reached
/// key is locked.
pub open spec fn spec_lock_complete(lock: VdmLock, targets: UrlMap<VdmAnyTarget>, reached: Seq<Seq<char>>) -> bool {
    &&& forall|i: int| 0 <= i < targets.keys().len() ==> match lock.files.lookup(#[trigger] targets.keys()[i]) {
        Some(f) => f.direct && f.version@ == targets.values()[i].version_view(),
        None => false,
    }
    &&& forall|j: int| 0 <= j < reached.len() ==> #[trigger] lock.files.lookup(reached[j]) is Some
}

/// Whether the lock holds a complete graph for the manifest's targets.
pub fn lock_complete(lock: &VdmLock, targets: &UrlMap<VdmAnyTarget>, reached: &Vec<VdmManifestTargetUrl>) -> (r: bool)
    requires
        lock.wf(),
        targets.wf(),
    ensures
        r == spec_lock_complete(*lock, *targets, keys_view(reached@)),
        r ==> forall|i: int| 0 <= i < targets.keys().len() ==> (#[trigger] lock.files.lookup(targets.keys()[i]) matches Some(f)
            && f.direct && f.version@ == targets.values()[i].version_view()),
        r ==> forall|j: int| 0 <= j < reached@.len() ==> #[trigger] lock.files.lookup(reached@[j]@) is Some,
{
    proof {
        targets.lemma_same_length();
    }
    let mut i: usize = 0;
    while i < targets.len()
        invariant
            lock.wf(),
            targets.keys().len() == targets.values().len(),
            i <= targets.keys().len(),
            forall|j: int| 0 <= j < i ==> match lock.files.lookup(#[trigger] targets.keys()[j]) {
                Some(f) => f.direct && f.version@ == targets.values()[j].version_view(),
                None => false,
            },
        decreases targets.keys().len() - i,
    {
        let (key, target) = targets.entry(i);
        match lock.files.get(key) {
            None => {
                assert(lock.files.lookup(targets.keys()[i as int]) is None);
                return false;
            },
            Some(entry) => {
                if !entry.direct || entry.version != *target.version() {
                    return false;
                }
            },
        }
        i += 1;
    }
    let mut j: usize = 0;
    while j < reached.len()
        invariant
            lock.wf(),
            j <= reached@.len(),
            forall|k: int| 0 <= k < j ==> #[trigger] lock.files.lookup(keys_view(reached@)[k]) is Some,
        decreases reached@.len() - j,
    {
        if !lock.files.contains_key(&reached[j]) {
            assert(lock.files.lookup(keys_view(reached@)[j as int]) is None);
            return false;
        }
        j += 1;
    }
    proof {
        assert forall|k: int| 0 <= k < reached@.len() implies #[trigger] lock.files.lookup(reached@[k]@) is Some by {
            assert(keys_view(reached@)[k] == reached@[k]@);
        }
    }
    true
}

/// The locked keys that are not reached.
pub fn stale_keys(lock: &VdmLock, reached: &Vec<VdmManifestTargetUrl>) -> (r: Vec<VdmManifestTargetUrl>)
    requires
        lock.wf(),
    ensures
        forall|x: Seq<char>| #[trigger] keys_view(r@).contains(x) <==> (lock.files.keys().contains(x) && !keys_view(reached@).contains(x)),
{
    let mut r: Vec<VdmManifestTargetUrl> = Vec::new();
    let mut i: usize = 0;
    while i < lock.files.len()
        invariant
            lock.wf(),
            i <= lock.files.keys().len(),
            forall|x: Seq<char>| #[trigger] keys_view(r@).contains(x) <==> (lock.files.keys().take(i as int).contains(x) && !keys_view(reached@).contains(x)),
        decreases lock.files.keys().len() - i,
    {
        proof {
            lock.files.lemma_same_length();
        }
        let (key, _) = lock.files.entry(i);
        let ghost before = keys_view(r@);
        let ghost kv = key@;
        let ghost ks = lock.files.keys();
        assert(ks.take(i + 1) =~= ks.take(i as int).push(kv));
        if !contains_key(reached, key) {
            r.push(key.clone());
            proof {
                assert(keys_view(r@) =~= before.push(kv));
                before.lemma_push_to_set_commute(kv);
                ks.take(i as int).lemma_push_to_set_commute(kv);
                assert forall|x: Seq<char>| #[trigger] keys_view(r@).contains(x) <==> (ks.take(i + 1).contains(x) && !keys_view(reached@).contains(x)) by {
                    assert(keys_view(r@).to_set().contains(x) == keys_view(r@).contains(x));
                    assert(before.to_set().contains(x) == before.contains(x));
                    assert(ks.take(i + 1).to_set().contains(x) == ks.take(i + 1).contains(x));
                    assert(ks.take(i as int).to_set().contains(x) == ks.take(i as int).contains(x));
                }
            }
        } else {
            proof {
                ks.take(i as int).lemma_push_to_set_commute(kv);
                assert forall|x: Seq<char>| #[trigger] keys_view(r@).contains(x) <==> (ks.take(i + 1).contains(x) && !keys_view(reached@).contains(x)) by {
                    assert(ks.take(i + 1).to_set().contains(x) == ks.take(i + 1).contains(x));
                    assert(ks.take(i as int).to_set().contains(x) == ks.take(i as int).contains(x));
                }
            }
        }
        i += 1;
    }
    assert(lock.files.keys().take(lock.files.keys().len() as int) =~= lock.files.keys());
    r
}

/// Drops every group whose key is not reached; the reached groups stay as they are.
pub fn prune_groups(lock: &mut VdmLock, reached: &Vec<VdmManifestTargetUrl>)
    requires
        old(lock).wf(),
    ensures
        final(lock).wf(),
        final(lock).files == old(lock).files,
        final(lock).updates == old(lock).updates,
        forall|k: Seq<char>| #[trigger] final(lock).globs.lookup(k) == if keys_view(reached@).contains(k) {
            old(lock).globs.lookup(k)
        } else {
            None
        },
{
    let ghost start = lock.globs;
    let mut unreached: Vec<VdmManifestTargetUrl> = Vec::new();
    let mut i: usize = 0;
    proof {
        lock.globs.lemma_same_length();
    }
    while i < lock.globs.len()
        invariant
            lock.wf(),
            lock.globs == start,
            i <= start.keys().len(),
            forall|x: Seq<char>| #[trigger] keys_view(unreached@).contains(x) ==> start.keys().contains(x) && !keys_view(reached@).contains(x),
            forall|j: int| 0 <= j < i && !keys_view(reached@).contains(start.keys()[j]) ==> keys_view(unreached@).contains(#[trigger] start.keys()[j]),
        decreases start.keys().len() - i,
    {
        let (key, _) = lock.globs.entry(i);
        if !contains_key(reached, key) {
            let ghost before = keys_view(unreached@);
            unreached.push(key.clone());
            proof {
                assert(keys_view(unreached@) =~= before.push(key@));
                assert(keys_view(unreached@)[before.len() as int] == key@);
                assert(start.keys().contains(key@)) by {
                    assert(start.keys()[i as int] == key@);
                }
                assert forall|x: Seq<char>| #[trigger] keys_view(unreached@).contains(x) implies start.keys().contains(x) && !keys_view(reached@).contains(x) by {
                    if x != key@ {
                        let q = choose|q: int| 0 <= q < keys_view(unreached@).len() && #[trigger] keys_view(unreached@)[q] == x;
                        assert(q < before.len());
                        assert(before[q] == x);
                        assert(before.contains(x));
                    } else {
                        assert(!keys_view(reached@).contains(key@));
                    }
                }
                assert forall|j: int| 0 <= j < i + 1 && !keys_view(reached@).contains(start.keys()[j]) implies keys_view(unreached@).contains(#[trigger] start.keys()[j]) by {
                    if j < i {
                        let q = choose|q: int| 0 <= q < before.len() && #[trigger] before[q] == start.keys()[j];
                        assert(keys_view(unreached@)[q] == start.keys()[j]);
                    }
                }
            }
        }
        i += 1;
    }
    let mut k: usize = 0;
    while k < unreached.len()
        invariant
            k <= unreached@.len(),
            lock.wf(),
            lock.files == old(lock).files,
            lock.updates == old(lock).updates,
            forall|x: Seq<char>| #[trigger] keys_view(unreached@).contains(x) ==> start.keys().contains(x) && !keys_view(reached@).contains(x),
            forall|x: Seq<char>| #[trigger] lock.globs.lookup(x) == if keys_view(unreached@).take(k as int).contains(x) {
                None
            } else {
                start.lookup(x)
            },
        decreases unreached@.len() - k,
    {
        let _ = lock.globs.remove(&unreached[k]);
        proof {
            let kv = unreached@[k as int]@;
            assert(keys_view(unreached@).take(k + 1) =~= keys_view(unreached@).take(k as int).push(kv));
            assert forall|x: Seq<char>| #[trigger] lock.globs.lookup(x) == if keys_view(unreached@).take(k + 1).contains(x) {
                None
            } else {
                start.lookup(x)
            } by {
                if x != kv {
                    if keys_view(unreached@).take(k + 1).contains(x) {
                        let q = choose|q: int| 0 <= q < k + 1 && #[trigger] keys_view(unreached@).take(k + 1)[q] == x;
                        assert(keys_view(unreached@).take(k as int)[q] == x);
                    }
                    if keys_view(unreached@).take(k as int).contains(x) {
                        let q = choose|q: int| 0 <= q < k && #[trigger] keys_view(unreached@).take(k as int)[q] == x;
                        assert(keys_view(unreached@).take(k + 1)[q] == x);
                    }
                } else {
                    assert(keys_view(unreached@).take(k + 1)[k as int] == x);
                }
            }
        }
        k += 1;
    }
    assert(keys_view(unreached@).take(unreached@.len() as int) =~= keys_view(unreached@));
    proof {
        assert forall|x: Seq<char>| #[trigger] lock.globs.lookup(x) == if keys_view(reached@).contains(x) {
            start.lookup(x)
        } else {
            None
        } by {
            crate::map::lemma_key_index_in_range(start.keys(), x);
            if !keys_view(reached@).contains(x) {
                if start.lookup(x) is Some {
                    let j = key_index(start.keys(), x)->0;
                    assert(start.keys()[j] == x);
                    assert(keys_view(unreached@).contains(start.keys()[j]));
                }
            } else {
                if keys_view(unreached@).contains(x) {
                    assert(!keys_view(reached@).contains(x));
                }
            }
        }
    }
}

/// Two files of resolved graphs are the same content at the same revision.
pub open spec fn same_download(a: VitGraphFile, b: VitGraphFile) -> bool {
    a.download.revision@ == b.download.revision@ && a.download.bytes@ == b.download.bytes@
}

/// Every key of `resolved` that `merged` already holds resolves there to the
/// same content at the same revision.
pub open spec fn graphs_agree(merged: UrlMap<VitGraphFile>, resolved: UrlMap<VitGraphFile>) -> bool {
    forall|k: Seq<char>|
        #[trigger] resolved.lookup(k) is Some && merged.lookup(k) is Some ==> same_download(
            merged.lookup(k)->0,
            resolved.lookup(k)->0,
        )
}

/// Merges the graph of one more target into the graphs merged so far: a key
/// already merged must resolve to the same content at the same revision, and
/// keeps its file; a new key is added.
pub fn merge_graph(merged: &mut UrlMap<VitGraphFile>, resolved: UrlMap<VitGraphFile>) -> (r: Result<(), VdmError>)
    requires
        old(merged).wf(),
        resolved.wf(),
    ensures
        final(merged).wf(),
        match r {
            Ok(()) => graphs_agree(*old(merged), resolved) && forall|k: Seq<char>| #[trigger] final(merged).lookup(k)
                == if old(merged).lookup(k) is Some {
                old(merged).lookup(k)
            } else {
                resolved.lookup(k)
            },
            Err(e) => !graphs_agree(*old(merged), resolved) && *final(merged) == *old(merged)
                && exists|i: int| 0 <= i < resolved.keys().len()
                    && (old(merged).lookup(#[trigger] resolved.keys()[i]) matches Some(m) && !same_download(m, resolved.values()[i]))
                    && (forall|j: int| 0 <= j < i ==> (#[trigger] old(merged).lookup(resolved.keys()[j]) matches Some(m) ==> same_download(m, resolved.values()[j])))
                    && (e matches VdmError::ConflictingGraphRevisions(k) && k@ == resolved.keys()[i]),
        },
{
    let n = resolved.len();
    let mut i: usize = 0;
    proof {
        resolved.lemma_same_length();
    }
    while i < n
        invariant
            n == resolved.keys().len(),
            resolved.keys().len() == resolved.values().len(),
            resolved.wf(),
            merged.wf(),
            *merged == *old(merged),
            i <= n,
            forall|j: int| 0 <= j < i ==> (#[trigger] merged.lookup(resolved.keys()[j]) matches Some(m) ==> same_download(
                m,
                resolved.values()[j],
            )),
        decreases n - i,
    {
        let (key, file) = resolved.entry(i);
        match merged.get(key) {
            Some(existing) => {
                let same = existing.download.revision == file.download.revision
                    && crate::text::eq_bytes(existing.download.bytes.as_slice(), file.download.bytes.as_slice());
                if !same {
                    proof {
                        crate::map::lemma_sorted_index(resolved.keys(), key@, i as int);
                        assert(resolved.lookup(key@) == Some(resolved.values()[i as int]));
                    }
                    assert(merged.lookup(resolved.keys()[i as int]) matches Some(m) && !same_download(m, resolved.values()[i as int]));
                    return Err(VdmError::ConflictingGraphRevisions(key.as_str().to_owned()));
                }
            },
            None => {},
        }
        i += 1;
    }
    proof {
        assert forall|k: Seq<char>| #[trigger] resolved.lookup(k) is Some && merged.lookup(k) is Some implies same_download(
            merged.lookup(k)->0,
            resolved.lookup(k)->0,
        ) by {
            crate::map::lemma_key_index_in_range(resolved.keys(), k);
            let j = key_index(resolved.keys(), k)->0;
            assert(resolved.keys()[j] == k);
        }
    }
    let ghost start = *merged;
    let ghost source = resolved;
    proof {
        assert forall|k: Seq<char>| #[trigger] source.lookup(k) == if source.keys().contains(k) { source.lookup(k) } else { None } by {
            crate::map::lemma_key_index_in_range(source.keys(), k);
            if source.lookup(k) is Some {
                let j = key_index(source.keys(), k)->0;
                assert(source.keys()[j] == k);
            }
        }
    }
    let mut rest = resolved;
    while rest.len() > 0
        invariant
            rest.wf(),
            merged.wf(),
            source.wf(),
            forall|k: Seq<char>| #[trigger] rest.lookup(k) == if rest.keys().contains(k) { source.lookup(k) } else { None },
            forall|k: Seq<char>| #[trigger] merged.lookup(k) == if start.lookup(k) is Some {
                start.lookup(k)
            } else if rest.lookup(k) is Some {
                None
            } else {
                source.lookup(k)
            },
        decreases rest.keys().len(),
    {
        proof {
            rest.lemma_same_length();
        }
        let first = rest.entry(0).0.clone();
        let ghost fk = first@;
        let ghost old_rest = rest;
        let file = match rest.remove(&first) {
            Some(f) => f,
            None => {
                proof {
                    crate::map::lemma_sorted_index(old_rest.keys(), fk, 0);
                }
                return Ok(());
            },
        };
        proof {
            old_rest.keys().lemma_push_to_set_commute(fk);
            assert(old_rest.keys().contains(fk)) by {
                assert(old_rest.keys()[0] == fk);
            }
            assert(rest.keys().len() < old_rest.keys().len()) by {
                assert(rest.keys().to_set() == old_rest.keys().to_set().remove(fk));
                lemma_sorted_unique(rest.keys());
                lemma_sorted_unique(old_rest.keys());
                rest.keys().unique_seq_to_set();
                old_rest.keys().unique_seq_to_set();
            }
        }
        if !merged.contains_key(&first) {
            merged.insert(first, file);
        }
        proof {
            assert forall|k: Seq<char>| #[trigger] rest.lookup(k) == if rest.keys().contains(k) { source.lookup(k) } else { None } by {
                assert(rest.keys().to_set().contains(k) == rest.keys().contains(k));
                assert(old_rest.keys().to_set().contains(k) == old_rest.keys().contains(k));
                crate::map::lemma_key_index_in_range(rest.keys(), k);
                if rest.lookup(k) is None && rest.keys().contains(k) {
                    let j = choose|j: int| 0 <= j < rest.keys().len() && rest.keys()[j] == k;
                    crate::map::lemma_sorted_index(rest.keys(), k, j);
                }
            }
        }
    }
    proof {
        assert forall|k: Seq<char>| #[trigger] merged.lookup(k) == if start.lookup(k) is Some {
            start.lookup(k)
        } else {
            source.lookup(k)
        } by {
            crate::map::lemma_key_index_in_range(rest.keys(), k);
        }
    }
    Ok(())
}

proof fn lemma_sorted_unique(keys: Seq<Seq<char>>)
    requires
        crate::map::sorted_keys(keys),
    ensures
        keys.no_duplicates(),
{
    assert forall|i: int, j: int| 0 <= i < keys.len() && 0 <= j < keys.len() && i != j implies keys[i] != keys[j] by {
        if i < j {
            assert(seq_lt(keys[i], keys[j]));
            if keys[i] == keys[j] {
                crate::map::lemma_seq_lt_irreflexive(keys[i]);
            }
        } else {
            assert(seq_lt(keys[j], keys[i]));
            if keys[i] == keys[j] {
                crate::map::lemma_seq_lt_irreflexive(keys[i]);
            }
        }
    }
}

/// The lock holds a complete graph exactly when every manifest target is
/// locked as a direct file at the manifest's version and every reached key is
/// locked: a target locked only as the dependency of another file, one locked
/// at another version, one not locked, or a reached key not locked each make
/// it incomplete.
pub proof fn lemma_lock_complete_law(lock: VdmLock, targets: UrlMap<VdmAnyTarget>, reached: Seq<Seq<char>>)
    ensures
        spec_lock_complete(lock, targets, reached) <==> (
            (forall|i: int| 0 <= i < targets.keys().len() ==> (#[trigger] lock.files.lookup(targets.keys()[i]) matches Some(f)
                && f.direct && f.version@ == targets.values()[i].version_view()))
            && (forall|j: int| 0 <= j < reached.len() ==> #[trigger] lock.files.lookup(reached[j]) is Some)),
        (exists|i: int| 0 <= i < targets.keys().len() && (#[trigger] lock.files.lookup(targets.keys()[i]) matches Some(f)
            && !f.direct)) ==> !spec_lock_complete(lock, targets, reached),
{
    if exists|i: int| 0 <= i < targets.keys().len() && (#[trigger] lock.files.lookup(targets.keys()[i]) matches Some(f)
        && !f.direct) {
        let i = choose|i: int| 0 <= i < targets.keys().len() && (#[trigger] lock.files.lookup(targets.keys()[i]) matches Some(f)
            && !f.direct);
        assert(!(lock.files.lookup(targets.keys()[i]) matches Some(f) && f.direct && f.version@ == targets.values()[i].version_view()));
    }
}

} // verus!
