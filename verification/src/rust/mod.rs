//! Rust sources: resolving a `use` path to the file of the module it names,
//! and the paths a module declaration or an `include!` points at.
use vstd::prelude::*;

pub mod load;
pub mod syntax;

use crate::error::{error_kind, VdmError};
use crate::path::{
    opt_chars_view, opt_string_view, parent_or_empty, parent_or_empty_exec, path_join, path_join_exec,
    spec_normalize_components,
};
use crate::rust::load::{joined_plain, probed, spec_joined_plain};
use crate::rust::syntax::{references_view, scan_references, spec_scan, RustSyntaxEvent};
use crate::sort::{sorted_unique_strings, strictly_sorted_seqs, strings_view};
use crate::text::{chars_of, eq_chars, string_of};

verus! {

/// The modules of a Rust crate: each module path (its names from the crate
/// root) and the file that holds it; each mounted file and the module it is
/// mounted as; and each module file a source file declares.
#[derive(Debug)]
pub struct RustResolver {
    modules: Vec<(Vec<String>, String)>,
    files: Vec<(String, Vec<String>)>,
    declarations: Vec<(String, String)>,
}

/// The mounted files as (file, module names) pairs.
pub open spec fn files_view(m: Seq<(String, Vec<String>)>) -> Seq<(Seq<char>, Seq<Seq<char>>)> {
    m.map_values(|e: (String, Vec<String>)| (e.0@, names_view(e.1@)))
}

/// The declarations as (declaring file, declared file) pairs.
pub open spec fn declarations_view(m: Seq<(String, String)>) -> Seq<(Seq<char>, Seq<char>)> {
    m.map_values(|e: (String, String)| (e.0@, e.1@))
}

/// The module the file `path` is mounted as, if it is: the latest mount counts.
pub open spec fn file_module(files: Seq<(Seq<char>, Seq<Seq<char>>)>, path: Seq<char>) -> Option<Seq<Seq<char>>>
    decreases files.len(),
{
    if files.len() == 0 {
        None
    } else if files.last().0 == path {
        Some(files.last().1)
    } else {
        file_module(files.drop_last(), path)
    }
}

/// The module files that `path` declares.
pub open spec fn declared_files(declarations: Seq<(Seq<char>, Seq<char>)>, path: Seq<char>) -> Set<Seq<char>> {
    Set::new(|c: Seq<char>| exists|i: int| 0 <= i < declarations.len() && #[trigger] declarations[i] == (path, c))
}

/// The names of a module path.
pub open spec fn names_view(v: Seq<String>) -> Seq<Seq<char>> {
    v.map_values(|s: String| s@)
}

/// The modules as (names, file) pairs.
pub open spec fn modules_view(m: Seq<(Vec<String>, String)>) -> Seq<(Seq<Seq<char>>, Seq<char>)> {
    m.map_values(|e: (Vec<String>, String)| (names_view(e.0@), e.1@))
}

/// The file of the module `logical`, if the crate has it.
pub open spec fn module_file(mods: Seq<(Seq<Seq<char>>, Seq<char>)>, logical: Seq<Seq<char>>) -> Option<Seq<char>>
    decreases mods.len(),
{
    if mods.len() == 0 {
        None
    } else if mods.last().0 == logical {
        Some(mods.last().1)
    } else {
        module_file(mods.drop_last(), logical)
    }
}

/// Some module of the crate lies at or below `logical`.
pub open spec fn has_module_under(mods: Seq<(Seq<Seq<char>>, Seq<char>)>, logical: Seq<Seq<char>>) -> bool {
    exists|i: int| 0 <= i < mods.len() && #[trigger] mods[i].0.len() >= logical.len() && mods[i].0.take(
        logical.len() as int,
    ) == logical
}

/// The number of leading `super` names.
pub open spec fn leading_supers(path: Seq<Seq<char>>) -> nat
    decreases path.len(),
{
    if path.len() > 0 && path[0] == "super"@ {
        1 + leading_supers(path.skip(1))
    } else {
        0
    }
}

/// Where the resolution of `path` from module `scope` starts: the module
/// named by its first names, and the names still to follow; `None` when
/// `super` climbs above the crate root.
pub open spec fn spec_resolve_start(mods: Seq<(Seq<Seq<char>>, Seq<char>)>, scope: Seq<Seq<char>>, path: Seq<Seq<char>>) -> Option<
    (Seq<Seq<char>>, Seq<Seq<char>>),
> {
    let first = path[0];
    if first == "crate"@ {
        Some((Seq::empty(), path.skip(1)))
    } else if first == "self"@ {
        Some((scope, path.skip(1)))
    } else if first == "super"@ {
        let n = leading_supers(path);
        if n > scope.len() {
            None
        } else {
            Some((scope.take(scope.len() - n), path.skip(n as int)))
        }
    } else {
        let child = scope.push(first);
        if has_module_under(mods, child) {
            Some((child, path.skip(1)))
        } else {
            Some((seq![first], path.skip(1)))
        }
    }
}

/// Following the names of `rest` from `logical`: the file of the deepest
/// module reached so far is kept.
pub open spec fn spec_follow(
    mods: Seq<(Seq<Seq<char>>, Seq<char>)>,
    logical: Seq<Seq<char>>,
    resolved: Option<Seq<char>>,
    rest: Seq<Seq<char>>,
) -> (Seq<Seq<char>>, Option<Seq<char>>)
    decreases rest.len(),
{
    if rest.len() == 0 {
        (logical, resolved)
    } else {
        let next = logical.push(rest[0]);
        let found = match module_file(mods, next) {
            Some(p) => Some(p),
            None => resolved,
        };
        spec_follow(mods, next, found, rest.skip(1))
    }
}

/// The file of the module that the path `path`, written in module `scope`,
/// leads to: `crate`, `self` and `super` are read as in Rust, another first
/// name is a child of `scope` when the crate has modules under it and a
/// crate-root name otherwise; the deepest module named is taken.
pub open spec fn spec_resolve_path(mods: Seq<(Seq<Seq<char>>, Seq<char>)>, scope: Seq<Seq<char>>, path: Seq<Seq<char>>) -> Option<
    Seq<char>,
> {
    if path.len() == 0 {
        None
    } else {
        match spec_resolve_start(mods, scope, path) {
            None => None,
            Some((logical, rest)) => {
                let start = if logical.len() == 0 {
                    None
                } else {
                    module_file(mods, logical)
                };
                let (end, resolved) = spec_follow(mods, logical, start, rest);
                if end.len() == 0 {
                    None
                } else {
                    resolved
                }
            },
        }
    }
}

/// Following names from `logical` ends at `logical` with all of `rest` appended.
proof fn lemma_follow_end(
    mods: Seq<(Seq<Seq<char>>, Seq<char>)>,
    logical: Seq<Seq<char>>,
    resolved: Option<Seq<char>>,
    rest: Seq<Seq<char>>,
)
    ensures
        spec_follow(mods, logical, resolved, rest).0 == logical + rest,
    decreases rest.len(),
{
    if rest.len() > 0 {
        let next = logical.push(rest[0]);
        let found = match module_file(mods, next) {
            Some(p) => Some(p),
            None => resolved,
        };
        lemma_follow_end(mods, next, found, rest.skip(1));
        assert(next + rest.skip(1) =~= logical + rest);
    }
}

/// Where no longer path is a module, the file already held is kept.
proof fn lemma_follow_none_found(
    mods: Seq<(Seq<Seq<char>>, Seq<char>)>,
    logical: Seq<Seq<char>>,
    resolved: Option<Seq<char>>,
    rest: Seq<Seq<char>>,
)
    requires
        forall|k: int| 1 <= k <= rest.len() ==> (#[trigger] module_file(mods, logical + rest.take(k))) is None,
    ensures
        spec_follow(mods, logical, resolved, rest).1 == resolved,
    decreases rest.len(),
{
    if rest.len() > 0 {
        let next = logical.push(rest[0]);
        assert(logical + rest.take(1) =~= next);
        assert(module_file(mods, logical + rest.take(1)) is None);
        let tail = rest.skip(1);
        assert forall|k: int| 1 <= k <= tail.len() implies (#[trigger] module_file(mods, next + tail.take(k))) is None by {
            assert(next + tail.take(k) =~= logical + rest.take(k + 1));
            assert(module_file(mods, logical + rest.take(k + 1)) is None);
        }
        lemma_follow_none_found(mods, next, resolved, tail);
    }
}

/// Following names keeps the file of the deepest module reached.
proof fn lemma_follow_deepest(
    mods: Seq<(Seq<Seq<char>>, Seq<char>)>,
    logical: Seq<Seq<char>>,
    resolved: Option<Seq<char>>,
    rest: Seq<Seq<char>>,
    k: int,
    f: Seq<char>,
)
    requires
        1 <= k <= rest.len(),
        module_file(mods, logical + rest.take(k)) == Some(f),
        forall|j: int| k < j <= rest.len() ==> (#[trigger] module_file(mods, logical + rest.take(j))) is None,
    ensures
        spec_follow(mods, logical, resolved, rest).1 == Some(f),
    decreases rest.len(),
{
    let next = logical.push(rest[0]);
    let found = match module_file(mods, next) {
        Some(p) => Some(p),
        None => resolved,
    };
    let tail = rest.skip(1);
    assert forall|j: int| 1 <= j <= tail.len() implies next + tail.take(j) == logical + rest.take(j + 1) by {
        assert(next + tail.take(j) =~= logical + rest.take(j + 1));
    }
    if k == 1 {
        assert(logical + rest.take(1) =~= next);
        assert forall|j: int| 1 <= j <= tail.len() implies (#[trigger] module_file(mods, next + tail.take(j))) is None by {
            assert(next + tail.take(j) == logical + rest.take(j + 1));
            assert(module_file(mods, logical + rest.take(j + 1)) is None);
        }
        lemma_follow_none_found(mods, next, found, tail);
    } else {
        assert(next + tail.take(k - 1) == logical + rest.take(k));
        assert forall|j: int| k - 1 < j <= tail.len() implies (#[trigger] module_file(mods, next + tail.take(j))) is None by {
            assert(next + tail.take(j) == logical + rest.take(j + 1));
            assert(module_file(mods, logical + rest.take(j + 1)) is None);
        }
        lemma_follow_deepest(mods, next, found, tail, k - 1, f);
    }
}

/// From wherever its first names start it, a path resolves to the file of
/// the deepest module it names: when the start followed by the first `k`
/// further names is a module with file `f`, and no longer prefix of the path
/// is a module, the path resolves to `f`, whatever the files of the shorter
/// prefixes are.
pub proof fn lemma_resolve_deepest(
    mods: Seq<(Seq<Seq<char>>, Seq<char>)>,
    scope: Seq<Seq<char>>,
    path: Seq<Seq<char>>,
    logical: Seq<Seq<char>>,
    rest: Seq<Seq<char>>,
    k: int,
    f: Seq<char>,
)
    requires
        path.len() > 0,
        spec_resolve_start(mods, scope, path) == Some((logical, rest)),
        0 <= k <= rest.len(),
        logical.len() + k > 0,
        module_file(mods, logical + rest.take(k)) == Some(f),
        forall|j: int| k < j <= rest.len() ==> (#[trigger] module_file(mods, logical + rest.take(j))) is None,
    ensures
        spec_resolve_path(mods, scope, path) == Some(f),
{
    let start = if logical.len() == 0 {
        None
    } else {
        module_file(mods, logical)
    };
    lemma_follow_end(mods, logical, start, rest);
    if k == 0 {
        assert(logical + rest.take(0) =~= logical);
        lemma_follow_none_found(mods, logical, start, rest);
    } else {
        lemma_follow_deepest(mods, logical, start, rest, k, f);
    }
}

/// A `crate::` path resolves to the file of the deepest module that its
/// names lead to from the crate root: when `path[1..=k]` names a module with
/// file `f` and no longer prefix of the names is a module, the result is `f`,
/// whatever the files of the modules on the way.
pub proof fn lemma_resolve_crate_path_deepest(
    mods: Seq<(Seq<Seq<char>>, Seq<char>)>,
    scope: Seq<Seq<char>>,
    path: Seq<Seq<char>>,
    k: int,
    f: Seq<char>,
)
    requires
        path.len() > 1,
        path[0] == "crate"@,
        1 <= k < path.len(),
        module_file(mods, path.subrange(1, k + 1)) == Some(f),
        forall|j: int| k < j < path.len() ==> (#[trigger] module_file(mods, path.subrange(1, j + 1))) is None,
    ensures
        spec_resolve_path(mods, scope, path) == Some(f),
{
    let rest = path.skip(1);
    let logical: Seq<Seq<char>> = Seq::empty();
    assert(spec_resolve_start(mods, scope, path) == Some((logical, rest)));
    assert(logical + rest.take(k) =~= path.subrange(1, k + 1));
    assert forall|j: int| k < j <= rest.len() implies (#[trigger] module_file(mods, logical + rest.take(j))) is None by {
        assert(logical + rest.take(j) =~= path.subrange(1, j + 1));
        assert(module_file(mods, path.subrange(1, j + 1)) is None);
    }
    lemma_resolve_deepest(mods, scope, path, logical, rest, k, f);
}

pub(crate) fn same_names(a: &Vec<String>, b: &[String]) -> (r: bool)
    ensures
        r == (names_view(a@) == names_view(b@)),
{
    if a.len() != b.len() {
        return false;
    }
    let mut i: usize = 0;
    while i < a.len()
        invariant
            a@.len() == b@.len(),
            i <= a@.len(),
            forall|j: int| 0 <= j < i ==> a@[j]@ == b@[j]@,
        decreases a@.len() - i,
    {
        if a[i] != b[i] {
            assert(names_view(a@)[i as int] != names_view(b@)[i as int]);
            return false;
        }
        i += 1;
    }
    assert(names_view(a@) =~= names_view(b@));
    true
}

fn starts_with_names(a: &Vec<String>, prefix: &Vec<String>) -> (r: bool)
    ensures
        r == (names_view(a@).len() >= names_view(prefix@).len() && names_view(a@).take(prefix@.len() as int) == names_view(prefix@)),
{
    if a.len() < prefix.len() {
        return false;
    }
    let mut i: usize = 0;
    while i < prefix.len()
        invariant
            a@.len() >= prefix@.len(),
            i <= prefix@.len(),
            forall|j: int| 0 <= j < i ==> a@[j]@ == prefix@[j]@,
        decreases prefix@.len() - i,
    {
        if a[i] != prefix[i] {
            assert(names_view(a@).take(prefix@.len() as int)[i as int] != names_view(prefix@)[i as int]);
            return false;
        }
        i += 1;
    }
    assert(names_view(a@).take(prefix@.len() as int) =~= names_view(prefix@));
    true
}

pub(crate) fn copy_names(v: &[String]) -> (r: Vec<String>)
    ensures
        names_view(r@) == names_view(v@),
{
    let mut r: Vec<String> = Vec::new();
    let mut i: usize = 0;
    while i < v.len()
        invariant
            i <= v@.len(),
            names_view(r@) == names_view(v@).take(i as int),
        decreases v@.len() - i,
    {
        let ghost before = names_view(r@);
        r.push(v[i].clone());
        assert(names_view(r@) =~= before.push(v@[i as int]@));
        assert(names_view(v@).take(i + 1) =~= names_view(v@).take(i as int).push(v@[i as int]@));
        i += 1;
    }
    assert(names_view(v@).take(v@.len() as int) =~= names_view(v@));
    r
}

impl RustResolver {
    /// The modules, in the order they were added.
    pub closed spec fn modules_spec(&self) -> Seq<(Seq<Seq<char>>, Seq<char>)> {
        modules_view(self.modules@)
    }

    /// The mounted files, in the order they were mounted.
    pub closed spec fn files_spec(&self) -> Seq<(Seq<char>, Seq<Seq<char>>)> {
        files_view(self.files@)
    }

    /// The module declarations, in the order they were met.
    pub closed spec fn declarations_spec(&self) -> Seq<(Seq<char>, Seq<char>)> {
        declarations_view(self.declarations@)
    }

    /// A crate with no module yet.
    pub fn new() -> (r: Self)
        ensures
            r.modules_spec() == Seq::<(Seq<Seq<char>>, Seq<char>)>::empty(),
            r.files_spec() == Seq::<(Seq<char>, Seq<Seq<char>>)>::empty(),
            r.declarations_spec() == Seq::<(Seq<char>, Seq<char>)>::empty(),
    {
        let r = RustResolver { modules: Vec::new(), files: Vec::new(), declarations: Vec::new() };
        assert(r.modules_spec() =~= Seq::<(Seq<Seq<char>>, Seq<char>)>::empty());
        assert(r.files_spec() =~= Seq::<(Seq<char>, Seq<Seq<char>>)>::empty());
        assert(r.declarations_spec() =~= Seq::<(Seq<char>, Seq<char>)>::empty());
        r
    }

    /// Records that the file `path` is mounted as module `names`.
    pub fn mount_file(&mut self, path: String, names: Vec<String>)
        ensures
            final(self).files_spec() == old(self).files_spec().push((path@, names_view(names@))),
            final(self).modules_spec() == old(self).modules_spec(),
            final(self).declarations_spec() == old(self).declarations_spec(),
    {
        let ghost entry = (path@, names_view(names@));
        self.files.push((path, names));
        assert(self.files_spec() =~= old(self).files_spec().push(entry));
    }

    /// Records that the file `source` declares the module file `child`.
    pub fn declare(&mut self, source: String, child: String)
        ensures
            final(self).declarations_spec() == old(self).declarations_spec().push((source@, child@)),
            final(self).modules_spec() == old(self).modules_spec(),
            final(self).files_spec() == old(self).files_spec(),
    {
        let ghost entry = (source@, child@);
        self.declarations.push((source, child));
        assert(self.declarations_spec() =~= old(self).declarations_spec().push(entry));
    }

    /// The module the file `path` is mounted as, if it is.
    pub fn file_module(&self, path: &str) -> (r: Option<Vec<String>>)
        ensures
            match r {
                Some(m) => file_module(self.files_spec(), path@) == Some(names_view(m@)),
                None => file_module(self.files_spec(), path@) is None,
            },
    {
        let ghost fs = self.files_spec();
        let mut i = self.files.len();
        assert(fs.take(i as int) =~= fs);
        while i > 0
            invariant
                i <= self.files@.len(),
                fs == files_view(self.files@),
                file_module(fs, path@) == file_module(fs.take(i as int), path@),
            decreases i,
        {
            let (file, names) = &self.files[i - 1];
            assert(fs.take(i as int).drop_last() =~= fs.take(i - 1));
            assert(fs.take(i as int).last() == (file@, names_view(names@)));
            if eq_chars(chars_of(file.as_str()).as_slice(), chars_of(path).as_slice()) {
                return Some(copy_names(names.as_slice()));
            }
            i -= 1;
        }
        assert(fs.take(0) =~= Seq::<(Seq<char>, Seq<Seq<char>>)>::empty());
        None
    }

    /// The module files that `path` declares.
    pub fn declared_files(&self, path: &str) -> (r: Vec<String>)
        ensures
            strings_view(r@).to_set() == declared_files(self.declarations_spec(), path@),
    {
        let ghost ds = self.declarations_spec();
        let mut out: Vec<String> = Vec::new();
        let mut i: usize = 0;
        assert(strings_view(out@).to_set() =~= declared_files(ds.take(0), path@));
        while i < self.declarations.len()
            invariant
                i <= self.declarations@.len(),
                ds == declarations_view(self.declarations@),
                strings_view(out@).to_set() == declared_files(ds.take(i as int), path@),
            decreases self.declarations@.len() - i,
        {
            let ghost before = strings_view(out@);
            let (source, child) = &self.declarations[i];
            assert(ds[i as int] == (source@, child@));
            if eq_chars(chars_of(source.as_str()).as_slice(), chars_of(path).as_slice()) {
                out.push(child.clone());
                proof {
                    assert(source@ == path@);
                    assert(strings_view(out@) =~= before.push(child@));
                    before.lemma_push_to_set_commute(child@);
                    assert(strings_view(out@).to_set() == before.to_set().insert(child@));
                    assert forall|c: Seq<char>| declared_files(ds.take(i + 1), path@).contains(c) <==> (declared_files(
                        ds.take(i as int),
                        path@,
                    ).contains(c) || c == child@) by {
                        if declared_files(ds.take(i + 1), path@).contains(c) {
                            let j = choose|j: int| 0 <= j < i + 1 && #[trigger] ds.take(i + 1)[j] == (path@, c);
                            if j < i {
                                assert(ds.take(i as int)[j] == (path@, c));
                            }
                        }
                        if declared_files(ds.take(i as int), path@).contains(c) {
                            let j = choose|j: int| 0 <= j < i && #[trigger] ds.take(i as int)[j] == (path@, c);
                            assert(ds.take(i + 1)[j] == (path@, c));
                        }
                        if c == child@ {
                            assert(ds.take(i + 1)[i as int] == (path@, c));
                        }
                    }
                    assert forall|c: Seq<char>| #[trigger] strings_view(out@).to_set().contains(c) <==> declared_files(
                        ds.take(i + 1),
                        path@,
                    ).contains(c) by {
                        assert(strings_view(out@).to_set().contains(c) <==> (before.to_set().contains(c) || c == child@));
                    }
                    assert(strings_view(out@).to_set() =~= declared_files(ds.take(i + 1), path@));
                }
            } else {
                proof {
                    assert forall|c: Seq<char>| declared_files(ds.take(i + 1), path@).contains(c) <==> declared_files(
                        ds.take(i as int),
                        path@,
                    ).contains(c) by {
                        if declared_files(ds.take(i + 1), path@).contains(c) {
                            let j = choose|j: int| 0 <= j < i + 1 && #[trigger] ds.take(i + 1)[j] == (path@, c);
                            if j < i {
                                assert(ds.take(i as int)[j] == (path@, c));
                            }
                        }
                        if declared_files(ds.take(i as int), path@).contains(c) {
                            let j = choose|j: int| 0 <= j < i && #[trigger] ds.take(i as int)[j] == (path@, c);
                            assert(ds.take(i + 1)[j] == (path@, c));
                        }
                    }
                    assert(declared_files(ds.take(i + 1), path@) =~= declared_files(ds.take(i as int), path@));
                }
            }
            i += 1;
        }
        assert(ds.take(self.declarations@.len() as int) =~= ds);
        out
    }

    /// Records that module `names` is held in `file`; a later record of the
    /// same module takes precedence.
    pub fn add_module(&mut self, names: Vec<String>, file: String)
        ensures
            final(self).modules_spec() == old(self).modules_spec().push((names_view(names@), file@)),
            final(self).files_spec() == old(self).files_spec(),
            final(self).declarations_spec() == old(self).declarations_spec(),
    {
        let ghost entry = (names_view(names@), file@);
        self.modules.push((names, file));
        assert(self.modules_spec() =~= old(self).modules_spec().push(entry));
        assert(self.files_spec() =~= old(self).files_spec());
        assert(self.declarations_spec() =~= old(self).declarations_spec());
    }

    /// The file of the module `logical`.
    pub fn module_file(&self, logical: &[String]) -> (r: Option<String>)
        ensures
            opt_string_view(r) == module_file(self.modules_spec(), names_view(logical@)),
    {
        let ghost mods = self.modules_spec();
        let mut i = self.modules.len();
        assert(mods.take(i as int) =~= mods);
        while i > 0
            invariant
                i <= self.modules@.len(),
                mods == modules_view(self.modules@),
                module_file(mods, names_view(logical@)) == module_file(mods.take(i as int), names_view(logical@)),
            decreases i,
        {
            let (names, file) = &self.modules[i - 1];
            assert(mods.take(i as int).drop_last() =~= mods.take(i - 1));
            assert(mods.take(i as int).last() == (names_view(names@), file@));
            if same_names(names, logical) {
                return Some(file.clone());
            }
            i -= 1;
        }
        assert(mods.take(0) =~= Seq::<(Seq<Seq<char>>, Seq<char>)>::empty());
        None
    }

    /// Whether some module lies at or below `logical`.
    pub fn has_module_under(&self, logical: &Vec<String>) -> (r: bool)
        ensures
            r == has_module_under(self.modules_spec(), names_view(logical@)),
    {
        let ghost mods = self.modules_spec();
        let mut i: usize = 0;
        while i < self.modules.len()
            invariant
                i <= self.modules@.len(),
                mods == modules_view(self.modules@),
                forall|j: int| 0 <= j < i ==> !(#[trigger] mods[j].0.len() >= names_view(logical@).len() && mods[j].0.take(
                    names_view(logical@).len() as int,
                ) == names_view(logical@)),
            decreases self.modules@.len() - i,
        {
            if starts_with_names(&self.modules[i].0, logical) {
                assert(mods[i as int].0.len() >= names_view(logical@).len());
                return true;
            }
            i += 1;
        }
        false
    }

    /// The file of the module that `path`, written in module `scope`, leads to.
    pub fn resolve_path(&self, scope: &Vec<String>, path: &Vec<String>) -> (r: Option<String>)
        ensures
            opt_string_view(r) == spec_resolve_path(self.modules_spec(), names_view(scope@), names_view(path@)),
    {
        let ghost mods = self.modules_spec();
        let ghost sv = names_view(scope@);
        let ghost pv = names_view(path@);
        if path.len() == 0 {
            return None;
        }
        let first = &path[0];
        let krate = String::from_str("crate");
        let slf = String::from_str("self");
        let sup = String::from_str("super");
        proof {
            reveal_strlit("crate");
            reveal_strlit("self");
            reveal_strlit("super");
        }
        let mut logical: Vec<String>;
        let mut next: usize;
        if *first == krate {
            logical = Vec::new();
            next = 1;
            assert(names_view(logical@) =~= Seq::<Seq<char>>::empty());
        } else if *first == slf {
            logical = copy_names(scope.as_slice());
            next = 1;
        } else if *first == sup {
            assert(pv[0] == first@);
            logical = copy_names(scope.as_slice());
            next = 0;
            assert(pv.skip(0) =~= pv);
            assert(sv.take(sv.len() - 0) =~= sv);
            while next < path.len() && path[next] == sup
                invariant
                    next <= path@.len(),
                    sup@ == "super"@,
                    pv == names_view(path@),
                    pv.len() > 0,
                    pv[0] == "super"@,
                    sv == names_view(scope@),
                    mods == self.modules_spec(),
                    "super"@ != "crate"@,
                    "super"@ != "self"@,
                    forall|j: int| 0 <= j < next ==> #[trigger] path@[j]@ == "super"@,
                    leading_supers(pv) == next + leading_supers(pv.skip(next as int)),
                    names_view(logical@) == sv.take(sv.len() - next),
                    next <= sv.len(),
                decreases path@.len() - next,
            {
                assert(pv[next as int] == path@[next as int]@);
                assert(pv.skip(next as int)[0] == "super"@);
                assert(pv.skip(next as int).skip(1) =~= pv.skip(next + 1));
                assert(leading_supers(pv.skip(next as int)) == 1 + leading_supers(pv.skip(next + 1)));
                if logical.len() == 0 {
                    proof {
                        assert(names_view(logical@).len() == 0);
                        assert(sv.take(sv.len() - next).len() == sv.len() - next);
                        assert(next == sv.len());
                        assert(leading_supers(pv.skip(next as int)) >= 1);
                        assert(leading_supers(pv) > sv.len());
                        assert(spec_resolve_start(mods, sv, pv) is None);
                    }
                    return None;
                }
                let ghost before = names_view(logical@);
                logical.pop();
                assert(names_view(logical@) =~= before.drop_last());
                assert(sv.take(sv.len() - next).drop_last() =~= sv.take(sv.len() - next - 1));
                next += 1;
            }
            proof {
                if next < path@.len() {
                    assert(pv.skip(next as int)[0] != "super"@);
                }
                assert(leading_supers(pv.skip(next as int)) == 0);
            }
        } else {
            let mut child = copy_names(scope.as_slice());
            child.push(first.clone());
            assert(names_view(child@) =~= sv.push(pv[0]));
            if self.has_module_under(&child) {
                logical = child;
            } else {
                logical = Vec::new();
                logical.push(first.clone());
                assert(names_view(logical@) =~= seq![pv[0]]);
            }
            next = 1;
        }
        assert(spec_resolve_start(mods, sv, pv) == Some((names_view(logical@), pv.skip(next as int))));
        let mut resolved: Option<String> = if logical.len() == 0 {
            None
        } else {
            self.module_file(logical.as_slice())
        };
        let ghost goal = spec_follow(mods, names_view(logical@), opt_string_view(resolved), pv.skip(next as int));
        while next < path.len()
            invariant
                next <= path@.len(),
                pv == names_view(path@),
                mods == self.modules_spec(),
                spec_follow(mods, names_view(logical@), opt_string_view(resolved), pv.skip(next as int)) == goal,
            decreases path@.len() - next,
        {
            let ghost before = names_view(logical@);
            logical.push(path[next].clone());
            assert(names_view(logical@) =~= before.push(pv.skip(next as int)[0]));
            assert(pv.skip(next as int).skip(1) =~= pv.skip(next + 1));
            match self.module_file(logical.as_slice()) {
                Some(p) => {
                    resolved = Some(p);
                },
                None => {},
            }
            next += 1;
        }
        assert(pv.skip(next as int) =~= Seq::<Seq<char>>::empty());
        if logical.len() == 0 {
            None
        } else {
            resolved
        }
    }
}


/// The file that a file-inclusion macro naming `named`, in a file of folder
/// `parent`, reads: the joined path reduced to plain components; refused when
/// it escapes.
pub fn inclusion_path(parent: &str, named: &str) -> (r: Result<String, VdmError>)
    ensures
        match spec_normalize_components(path_join(parent@, named@)) {
            Some(p) => r matches Ok(s) && s@ == p,
            None => r matches Err(VdmError::RustPathEscapes(j)) && j@ == path_join(parent@, named@),
        },
{
    let joined = path_join_exec(chars_of(parent).as_slice(), chars_of(named).as_slice());
    match crate::path::normalize_components(joined.as_slice()) {
        Some(p) => Ok(string_of(p.as_slice())),
        None => Err(VdmError::RustPathEscapes(string_of(joined.as_slice()))),
    }
}

/// The files that some resolved path names, other than `path` itself.
pub open spec fn resolved_files(resolved: Seq<Option<String>>, path: Seq<char>, n: int) -> Set<Seq<char>> {
    Set::new(|x: Seq<char>| x != path && exists|j: int| 0 <= j < n && #[trigger] opt_string_view(resolved[j]) == Some(x))
}

proof fn lemma_resolved_files_step(resolved: Seq<Option<String>>, path: Seq<char>, i: int)
    requires
        0 <= i < resolved.len(),
    ensures
        forall|x: Seq<char>| #[trigger] resolved_files(resolved, path, i + 1).contains(x) <==> (resolved_files(
            resolved,
            path,
            i,
        ).contains(x) || (x != path && opt_string_view(resolved[i]) == Some(x))),
{
    assert forall|x: Seq<char>| #[trigger] resolved_files(resolved, path, i + 1).contains(x) <==> (resolved_files(
        resolved,
        path,
        i,
    ).contains(x) || (x != path && opt_string_view(resolved[i]) == Some(x))) by {
        if resolved_files(resolved, path, i + 1).contains(x) {
            let j = choose|j: int| 0 <= j < i + 1 && #[trigger] opt_string_view(resolved[j]) == Some(x);
            if j < i {
                assert(resolved_files(resolved, path, i).contains(x));
            }
        }
        if resolved_files(resolved, path, i).contains(x) {
            let j = choose|j: int| 0 <= j < i && #[trigger] opt_string_view(resolved[j]) == Some(x);
            assert(0 <= j < i + 1);
        }
    }
}

/// The dependencies of the Rust file `path`: its declared child modules, the
/// files its paths resolve to (other than itself) and the files it pulls in,
/// sorted and each once.
pub fn merge_dependencies(path: &str, declared: Vec<String>, resolved: Vec<Option<String>>, pulled: Vec<String>) -> (r: Vec<
    String,
>)
    ensures
        strictly_sorted_seqs(strings_view(r@)),
        strings_view(r@).to_set() == strings_view(declared@).to_set().union(
            resolved_files(resolved@, path@, resolved@.len() as int),
        ).union(strings_view(pulled@).to_set()),
{
    let mut all = declared;
    let ghost d = strings_view(all@).to_set();
    assert(resolved_files(resolved@, path@, 0) =~= Set::<Seq<char>>::empty());
    assert(strings_view(all@).to_set() =~= d.union(resolved_files(resolved@, path@, 0)));
    let mut i: usize = 0;
    while i < resolved.len()
        invariant
            i <= resolved@.len(),
            strings_view(all@).to_set() == d.union(resolved_files(resolved@, path@, i as int)),
        decreases resolved@.len() - i,
    {
        let ghost before = strings_view(all@);
        match &resolved[i] {
            Some(p) => {
                assert(opt_string_view(resolved@[i as int]) == Some(p@));
                if !eq_chars(chars_of(p.as_str()).as_slice(), chars_of(path).as_slice()) {
                    all.push(p.clone());
                    proof {
                        assert(strings_view(all@) =~= before.push(p@));
                        before.lemma_push_to_set_commute(p@);
                        lemma_resolved_files_step(resolved@, path@, i as int);
                        assert(resolved_files(resolved@, path@, i + 1) =~= resolved_files(resolved@, path@, i as int).insert(p@));
                    }
                } else {
                    proof {
                        lemma_resolved_files_step(resolved@, path@, i as int);
                        assert(resolved_files(resolved@, path@, i + 1) =~= resolved_files(resolved@, path@, i as int));
                    }
                }
            },
            None => {
                proof {
                    lemma_resolved_files_step(resolved@, path@, i as int);
                    assert(resolved_files(resolved@, path@, i + 1) =~= resolved_files(resolved@, path@, i as int));
                }
            },
        }
        i += 1;
    }
    let ghost middle = strings_view(all@).to_set();
    let mut k: usize = 0;
    assert(strings_view(pulled@).take(0).to_set() =~= Set::<Seq<char>>::empty());
    assert(middle =~= middle.union(strings_view(pulled@).take(0).to_set()));
    while k < pulled.len()
        invariant
            k <= pulled@.len(),
            strings_view(all@).to_set() == middle.union(strings_view(pulled@).take(k as int).to_set()),
        decreases pulled@.len() - k,
    {
        let ghost before = strings_view(all@);
        all.push(pulled[k].clone());
        proof {
            assert(strings_view(all@) =~= before.push(pulled@[k as int]@));
            before.lemma_push_to_set_commute(pulled@[k as int]@);
            assert(strings_view(pulled@).take(k + 1) =~= strings_view(pulled@).take(k as int).push(pulled@[k as int]@));
            strings_view(pulled@).take(k as int).lemma_push_to_set_commute(pulled@[k as int]@);
        }
        k += 1;
    }
    assert(strings_view(pulled@).take(pulled@.len() as int) =~= strings_view(pulled@));
    sorted_unique_strings(all)
}

/// The files that the references resolve to in `mods`, other than `path` itself.
pub open spec fn spec_referenced_files(
    mods: Seq<(Seq<Seq<char>>, Seq<char>)>,
    references: Seq<(Seq<Seq<char>>, Seq<Seq<char>>)>,
    path: Seq<char>,
) -> Set<Seq<char>> {
    Set::new(
        |x: Seq<char>|
            x != path && exists|j: int|
                0 <= j < references.len() && #[trigger] spec_resolve_path(mods, references[j].0, references[j].1) == Some(
                    x,
                ),
    )
}

/// The files a source in folder `parent` pulls in, each joined to the folder
/// and reduced, in order: refused at the first that escapes or whose check,
/// `exists[k]` for the `k`-th, found no file.
pub open spec fn spec_pulled_files(parent: Seq<char>, pulled: Seq<Seq<char>>, exists: Seq<bool>) -> Result<
    Seq<Seq<char>>,
    VdmError,
>
    decreases pulled.len(),
{
    if pulled.len() == 0 {
        Ok(Seq::empty())
    } else {
        let k = pulled.len() - 1;
        match spec_pulled_files(parent, pulled.take(k), exists) {
            Err(e) => Err(e),
            Ok(ps) => match spec_joined_plain(parent, pulled[k]) {
                Err(e) => Err(e),
                Ok(p) => if probed(exists, k) {
                    Ok(ps.push(p))
                } else {
                    Err(error_kind(VdmError::RustIncludedFileMissing(arbitrary(), arbitrary())))
                },
            },
        }
    }
}

/// The dependencies of the Rust file `path` of a loaded crate, scanned from
/// the events of its syntax: the module files it declares, the files its
/// references resolve to (other than itself) and the files it pulls in;
/// refused when the file is not part of the crate or a pulled file escapes or
/// does not exist.
pub open spec fn spec_dependencies(
    mods: Seq<(Seq<Seq<char>>, Seq<char>)>,
    files: Seq<(Seq<char>, Seq<Seq<char>>)>,
    declarations: Seq<(Seq<char>, Seq<char>)>,
    path: Seq<char>,
    events: Seq<RustSyntaxEvent>,
    exists: Seq<bool>,
) -> Result<Set<Seq<char>>, VdmError> {
    match file_module(files, path) {
        None => Err(error_kind(VdmError::RustFileNotInCrate(arbitrary()))),
        Some(module) => {
            let scan = spec_scan(module, events);
            match spec_pulled_files(parent_or_empty(path), scan.pulled, exists) {
                Err(e) => Err(e),
                Ok(ps) => Ok(
                    declared_files(declarations, path).union(spec_referenced_files(mods, scan.references, path)).union(
                        ps.to_set(),
                    ),
                ),
            }
        },
    }
}

/// The files pulled in from `pulled`, joined to `parent` and reduced: `None`
/// for one that escapes.
pub open spec fn spec_pulled_candidates(parent: Seq<char>, pulled: Seq<Seq<char>>) -> Seq<Option<Seq<char>>> {
    pulled.map_values(|p: Seq<char>| spec_normalize_components(path_join(parent, p)))
}

proof fn lemma_pulled_error(parent: Seq<char>, pulled: Seq<Seq<char>>, exists: Seq<bool>, n: int, e: VdmError)
    requires
        0 < n <= pulled.len(),
        spec_pulled_files(parent, pulled.take(n), exists) == Err::<Seq<Seq<char>>, VdmError>(e),
    ensures
        spec_pulled_files(parent, pulled, exists) == Err::<Seq<Seq<char>>, VdmError>(e),
    decreases pulled.len() - n,
{
    if n < pulled.len() {
        assert(pulled.take(n + 1).take(n) =~= pulled.take(n));
        lemma_pulled_error(parent, pulled, exists, n + 1, e);
    } else {
        assert(pulled.take(n) =~= pulled);
    }
}

impl RustResolver {
    /// The files that the Rust file `path` pulls in, as the scan of its
    /// syntax finds them, each joined to the file's folder and reduced (`None`
    /// for one that escapes): the files whose existence `dependencies` needs.
    pub fn pulled_candidates(&self, path: &str, events: &Vec<RustSyntaxEvent>) -> (r: Result<Vec<Option<String>>, VdmError>)
        ensures
            match r {
                Ok(v) => file_module(self.files_spec(), path@) matches Some(module) && v@.map_values(
                    |o: Option<String>| opt_string_view(o),
                ) == spec_pulled_candidates(parent_or_empty(path@), spec_scan(module, events@).pulled),
                Err(e) => (e matches VdmError::RustFileNotInCrate(p) && p@ == path@) && file_module(self.files_spec(), path@) is None,
            },
    {
        let module = match self.file_module(path) {
            None => return Err(VdmError::RustFileNotInCrate(path.to_owned())),
            Some(m) => m,
        };
        let (_references, pulled) = scan_references(&module, events);
        let parent = parent_or_empty_exec(path);
        let ghost target = spec_pulled_candidates(parent@, strings_view(pulled@));
        let mut out: Vec<Option<String>> = Vec::new();
        let mut k: usize = 0;
        while k < pulled.len()
            invariant
                k <= pulled@.len(),
                target == spec_pulled_candidates(parent@, strings_view(pulled@)),
                out@.map_values(|o: Option<String>| opt_string_view(o)) == target.take(k as int),
            decreases pulled@.len() - k,
        {
            let ghost before = out@.map_values(|o: Option<String>| opt_string_view(o));
            let found = match joined_plain(parent.as_str(), pulled[k].as_str()) {
                Ok(p) => Some(p),
                Err(_) => None,
            };
            assert(strings_view(pulled@)[k as int] == pulled@[k as int]@);
            assert(opt_string_view(found) == target[k as int]);
            out.push(found);
            assert(out@.map_values(|o: Option<String>| opt_string_view(o)) =~= before.push(opt_string_view(found)));
            assert(target.take(k + 1) =~= target.take(k as int).push(target[k as int]));
            k += 1;
        }
        assert(target.take(pulled@.len() as int) =~= target);
        Ok(out)
    }

    /// The dependencies of the Rust file `path`, sorted and each once, from
    /// the events of its syntax and the checks `exists` of the files it pulls
    /// in, in the order `pulled_candidates` gives them.
    pub fn dependencies(&self, path: &str, events: &Vec<RustSyntaxEvent>, exists: &Vec<bool>) -> (r: Result<
        Vec<String>,
        VdmError,
    >)
        ensures
            match r {
                Ok(v) => spec_dependencies(
                    self.modules_spec(),
                    self.files_spec(),
                    self.declarations_spec(),
                    path@,
                    events@,
                    exists@,
                ) == Ok::<Set<Seq<char>>, VdmError>(strings_view(v@).to_set()) && strictly_sorted_seqs(
                    strings_view(v@),
                ),
                Err(e) => spec_dependencies(
                    self.modules_spec(),
                    self.files_spec(),
                    self.declarations_spec(),
                    path@,
                    events@,
                    exists@,
                ) == Err::<Set<Seq<char>>, VdmError>(error_kind(e)),
            },
            r matches Err(VdmError::RustFileNotInCrate(p)) ==> p@ == path@,
            r matches Err(VdmError::RustIncludedFileMissing(f, s)) ==> s@ == path@,
    {
        let module = match self.file_module(path) {
            None => return Err(VdmError::RustFileNotInCrate(path.to_owned())),
            Some(m) => m,
        };
        let ghost scan = spec_scan(names_view(module@), events@);
        let (references, pulled) = scan_references(&module, events);
        let declared = self.declared_files(path);
        let ghost mods = self.modules_spec();
        let ghost refs = references_view(references@);
        let mut resolved: Vec<Option<String>> = Vec::new();
        let mut i: usize = 0;
        while i < references.len()
            invariant
                i <= references@.len(),
                resolved@.len() == i,
                mods == self.modules_spec(),
                refs == references_view(references@),
                forall|j: int| 0 <= j < i ==> opt_string_view(#[trigger] resolved@[j]) == spec_resolve_path(mods, refs[j].0, refs[j].1),
            decreases references@.len() - i,
        {
            let found = self.resolve_path(&references[i].0, &references[i].1);
            resolved.push(found);
            i += 1;
        }
        proof {
            assert forall|x: Seq<char>| #[trigger] resolved_files(resolved@, path@, resolved@.len() as int).contains(x) <==> spec_referenced_files(
                mods,
                refs,
                path@,
            ).contains(x) by {
                if resolved_files(resolved@, path@, resolved@.len() as int).contains(x) {
                    let j = choose|j: int| 0 <= j < resolved@.len() && #[trigger] opt_string_view(resolved@[j]) == Some(x);
                    assert(spec_resolve_path(mods, refs[j].0, refs[j].1) == Some(x));
                }
                if spec_referenced_files(mods, refs, path@).contains(x) {
                    let j = choose|j: int| 0 <= j < refs.len() && #[trigger] spec_resolve_path(mods, refs[j].0, refs[j].1) == Some(x);
                    assert(opt_string_view(resolved@[j]) == Some(x));
                }
            }
            assert(resolved_files(resolved@, path@, resolved@.len() as int) =~= spec_referenced_files(mods, refs, path@));
        }
        let parent = parent_or_empty_exec(path);
        let ghost pv = strings_view(pulled@);
        let mut files: Vec<String> = Vec::new();
        let mut k: usize = 0;
        assert(pv.take(0) =~= Seq::<Seq<char>>::empty());
        assert(strings_view(files@) =~= Seq::<Seq<char>>::empty());
        while k < pulled.len()
            invariant
                k <= pulled@.len(),
                pv == strings_view(pulled@),
                pv == scan.pulled,
                scan == spec_scan(names_view(module@), events@),
                parent@ == parent_or_empty(path@),
                file_module(self.files_spec(), path@) == Some(names_view(module@)),
                spec_pulled_files(parent@, pv.take(k as int), exists@) == Ok::<Seq<Seq<char>>, VdmError>(strings_view(files@)),
            decreases pulled@.len() - k,
        {
            assert(pv.take(k + 1).take(k as int) =~= pv.take(k as int));
            assert(pv.take(k + 1)[k as int] == pv[k as int]);
            match joined_plain(parent.as_str(), pulled[k].as_str()) {
                Err(e) => {
                    proof {
                        lemma_pulled_error(parent@, pv, exists@, k + 1, error_kind(e));
                    }
                    return Err(e);
                },
                Ok(p) => {
                    if !(k < exists.len() && exists[k]) {
                        proof {
                            lemma_pulled_error(
                                parent@,
                                pv,
                                exists@,
                                k + 1,
                                error_kind(VdmError::RustIncludedFileMissing(arbitrary(), arbitrary())),
                            );
                        }
                        return Err(VdmError::RustIncludedFileMissing(p, path.to_owned()));
                    }
                    let ghost before = strings_view(files@);
                    files.push(p);
                    assert(strings_view(files@) =~= before.push(p@));
                },
            }
            k += 1;
        }
        assert(pv.take(pulled@.len() as int) =~= pv);
        Ok(merge_dependencies(path, declared, resolved, files))
    }
}

/// How many of the loaded crates hold the file `path`.
pub open spec fn spec_holding_count(loaded: Seq<RustResolver>, path: Seq<char>) -> nat
    decreases loaded.len(),
{
    if loaded.len() == 0 {
        0
    } else {
        spec_holding_count(loaded.drop_last(), path) + if file_module(loaded.last().files_spec(), path) is Some {
            1nat
        } else {
            0nat
        }
    }
}

/// The one crate, among those loaded from each crate root, that holds the
/// Rust file `requested`; refused, with the file and their number, when it is
/// not exactly one.
pub fn select_crate(requested: &str, loaded: Vec<RustResolver>) -> (r: Result<RustResolver, VdmError>)
    ensures
        match r {
            Ok(c) => spec_holding_count(loaded@, requested@) == 1 && file_module(c.files_spec(), requested@) is Some
                && exists|j: int| 0 <= j < loaded@.len() && loaded@[j] == c,
            Err(e) => spec_holding_count(loaded@, requested@) != 1 && (e matches VdmError::RustCrateRootCount(p, n)
                && p@ == requested@ && n == spec_holding_count(loaded@, requested@)),
        },
{
    let mut loaded = loaded;
    let ghost all = loaded@;
    let mut count: usize = 0;
    let mut found: usize = 0;
    let mut i: usize = 0;
    while i < loaded.len()
        invariant
            i <= loaded@.len(),
            loaded@ == all,
            count == spec_holding_count(all.take(i as int), requested@),
            count > 0 ==> found < i && file_module(all[found as int].files_spec(), requested@) is Some,
            count <= i,
        decreases loaded@.len() - i,
    {
        assert(all.take(i + 1).drop_last() =~= all.take(i as int));
        if loaded[i].file_module(requested).is_some() {
            if count == 0 {
                found = i;
            }
            count += 1;
        }
        i += 1;
    }
    assert(all.take(all.len() as int) =~= all);
    if count != 1 {
        return Err(VdmError::RustCrateRootCount(requested.to_owned(), count));
    }
    let c = loaded.remove(found);
    Ok(c)
}

} // verus!
