//! Finding the crate a Rust file belongs to: the `Cargo.toml` above it, the
//! crate roots the manifest names, and the files a module declaration may be in.
use vstd::prelude::*;

use crate::error::{error_kind, VdmError};
use crate::path::{
    normalize_components, parent_or_empty, parent_or_empty_exec, path_join, path_join_exec, path_parent,
    path_with_extension, spec_normalize_components, std_path_parent, std_path_with_extension,
};
use crate::rust::syntax::{has_cfg, path_attribute, spec_has_cfg, spec_path_attribute, RustItem, RustModItem};
use crate::rust::{copy_names, file_module, names_view, same_names, RustResolver};
use crate::sort::{sorted_unique_strings, strictly_sorted_seqs, strings_view};
use crate::text::{chars_of, eq_chars, string_of};

verus! {

/// `a` joined with `b`.
pub fn join_paths(a: &str, b: &str) -> (r: String)
    ensures
        r@ == path_join(a@, b@),
{
    let joined = path_join_exec(chars_of(a).as_slice(), chars_of(b).as_slice());
    string_of(joined.as_slice())
}

/// `a` joined with `b`, reduced to plain components; refused when it escapes.
pub open spec fn spec_joined_plain(a: Seq<char>, b: Seq<char>) -> Result<Seq<char>, VdmError> {
    match spec_normalize_components(path_join(a, b)) {
        Some(p) => Ok(p),
        None => Err(error_kind(VdmError::RustPathEscapes(arbitrary()))),
    }
}

/// `a` joined with `b`, reduced to plain components.
pub fn joined_plain(a: &str, b: &str) -> (r: Result<String, VdmError>)
    ensures
        match r {
            Ok(p) => spec_joined_plain(a@, b@) == Ok::<Seq<char>, VdmError>(p@),
            Err(e) => spec_joined_plain(a@, b@) == Err::<Seq<char>, VdmError>(error_kind(e))
                && (e matches VdmError::RustPathEscapes(p) && p@ == path_join(a@, b@)),
        },
{
    let joined = path_join_exec(chars_of(a).as_slice(), chars_of(b).as_slice());
    match normalize_components(joined.as_slice()) {
        Some(p) => Ok(string_of(p.as_slice())),
        None => Err(VdmError::RustPathEscapes(string_of(joined.as_slice()))),
    }
}

/// The manifests to look for from the folder `dir` upwards: `dir/Cargo.toml`,
/// then those from its parent.
pub open spec fn spec_manifests_from(dir: Seq<char>) -> Seq<Seq<char>>
    decreases dir.len(),
{
    let here = seq![path_join(dir, "Cargo.toml"@)];
    match std_path_parent(dir) {
        Some(up) => if up.len() < dir.len() {
            here + spec_manifests_from(up)
        } else {
            here
        },
        None => here,
    }
}

/// Where a `Cargo.toml` holding the Rust file `requested` may lie, nearest first.
pub open spec fn spec_manifest_candidates(requested: Seq<char>) -> Seq<Seq<char>> {
    match std_path_parent(requested) {
        Some(dir) => spec_manifests_from(dir),
        None => Seq::empty(),
    }
}

/// The manifests that may hold the Rust file `requested`, nearest first.
pub fn manifest_candidates(requested: &str) -> (r: Vec<String>)
    ensures
        strings_view(r@) == spec_manifest_candidates(requested@),
{
    let ghost goal = spec_manifest_candidates(requested@);
    let mut out: Vec<String> = Vec::new();
    let mut current: Option<String> = path_parent(requested);
    proof {
        reveal_strlit("Cargo.toml");
    }
    assert(strings_view(out@) =~= Seq::<Seq<char>>::empty());
    assert(strings_view(out@) + (match current {
        Some(d) => spec_manifests_from(d@),
        None => Seq::<Seq<char>>::empty(),
    }) =~= goal);
    while current.is_some()
        invariant
            strings_view(out@) + (match current {
                Some(d) => spec_manifests_from(d@),
                None => Seq::<Seq<char>>::empty(),
            }) == goal,
        decreases (match current {
            Some(d) => d@.len() + 1,
            None => 0,
        }),
    {
        let dir = current.unwrap();
        let ghost before = strings_view(out@);
        out.push(join_paths(dir.as_str(), "Cargo.toml"));
        current = path_parent(dir.as_str());
        proof {
            let here = seq![path_join(dir@, "Cargo.toml"@)];
            assert(strings_view(out@) =~= before + here);
            if current is Some {
                let up = current->0;
                assert(spec_manifests_from(dir@) == here + spec_manifests_from(up@));
                assert(strings_view(out@) + spec_manifests_from(up@) =~= before + spec_manifests_from(dir@));
            } else {
                assert(strings_view(out@) + Seq::<Seq<char>>::empty() =~= before + spec_manifests_from(dir@));
            }
        }
    }
    assert(strings_view(out@) + Seq::<Seq<char>>::empty() =~= strings_view(out@));
    out
}

/// The check at `i` found a file.
pub open spec fn probed(exists: Seq<bool>, i: int) -> bool {
    0 <= i < exists.len() && exists[i]
}

/// The first candidate from `i` on whose check found a file.
pub open spec fn spec_first_existing_from(candidates: Seq<Seq<char>>, exists: Seq<bool>, i: int) -> Option<Seq<char>>
    decreases candidates.len() - i,
{
    if i < 0 || i >= candidates.len() {
        None
    } else if probed(exists, i) {
        Some(candidates[i])
    } else {
        spec_first_existing_from(candidates, exists, i + 1)
    }
}

/// The manifest of the crate of `file`: the nearest candidate that exists,
/// `exists[i]` telling whether `candidates[i]` does.
pub fn find_manifest(candidates: &Vec<String>, exists: &Vec<bool>, file: &str) -> (r: Result<String, VdmError>)
    ensures
        match spec_first_existing_from(strings_view(candidates@), exists@, 0) {
            Some(m) => r matches Ok(s) && s@ == m,
            None => r matches Err(VdmError::RustManifestMissing(f)) && f@ == file@,
        },
{
    let ghost cv = strings_view(candidates@);
    let mut i: usize = 0;
    while i < candidates.len()
        invariant
            i <= candidates@.len(),
            cv == strings_view(candidates@),
            spec_first_existing_from(cv, exists@, 0) == spec_first_existing_from(cv, exists@, i as int),
        decreases candidates@.len() - i,
    {
        if i < exists.len() && exists[i] {
            return Ok(candidates[i].clone());
        }
        i += 1;
    }
    Err(VdmError::RustManifestMissing(file.to_owned()))
}

/// A build target of a Cargo manifest, by the source path it sets, if any.
#[derive(Debug)]
pub struct RustCargoTarget {
    pub path: Option<String>,
}

/// What crate loading reads from a Cargo manifest: its library target and its
/// binary targets.
#[derive(Debug)]
pub struct RustCargoManifest {
    pub lib: Option<RustCargoTarget>,
    pub bin: Vec<RustCargoTarget>,
}

/// The roots the binary targets set, in order.
pub open spec fn spec_bin_roots(dir: Seq<char>, bins: Seq<RustCargoTarget>) -> Result<Seq<Seq<char>>, VdmError>
    decreases bins.len(),
{
    if bins.len() == 0 {
        Ok(Seq::empty())
    } else {
        match spec_bin_roots(dir, bins.drop_last()) {
            Err(e) => Err(e),
            Ok(rs) => match bins.last().path {
                None => Ok(rs),
                Some(p) => match spec_joined_plain(dir, p@) {
                    Err(e) => Err(e),
                    Ok(q) => Ok(rs.push(q)),
                },
            },
        }
    }
}

/// The library root: the path the library target sets, else `src/lib.rs`.
pub open spec fn spec_lib_root(dir: Seq<char>, m: RustCargoManifest) -> Result<Seq<char>, VdmError> {
    match m.lib {
        Some(RustCargoTarget { path: Some(p) }) => spec_joined_plain(dir, p@),
        _ => Ok(path_join(dir, "src/lib.rs"@)),
    }
}

/// The crate roots a manifest at `manifest` names, beside it: the library
/// root, the roots of the binary targets that set one, and `src/main.rs`.
pub open spec fn spec_crate_roots(manifest: Seq<char>, m: RustCargoManifest) -> Result<Set<Seq<char>>, VdmError> {
    let dir = parent_or_empty(manifest);
    match spec_lib_root(dir, m) {
        Err(e) => Err(e),
        Ok(lib) => match spec_bin_roots(dir, m.bin@) {
            Err(e) => Err(e),
            Ok(bins) => Ok(set![lib].union(bins.to_set()).insert(path_join(dir, "src/main.rs"@))),
        },
    }
}

/// The crate roots a manifest names, sorted and each once.
pub fn crate_root_candidates(manifest: &str, m: &RustCargoManifest) -> (r: Result<Vec<String>, VdmError>)
    ensures
        match r {
            Ok(v) => spec_crate_roots(manifest@, *m) == Ok::<Set<Seq<char>>, VdmError>(strings_view(v@).to_set())
                && strictly_sorted_seqs(strings_view(v@)),
            Err(e) => spec_crate_roots(manifest@, *m) == Err::<Set<Seq<char>>, VdmError>(error_kind(e)),
        },
{
    proof {
        reveal_strlit("src/lib.rs");
        reveal_strlit("src/main.rs");
    }
    let dir = parent_or_empty_exec(manifest);
    let lib = match &m.lib {
        Some(RustCargoTarget { path: Some(p) }) => joined_plain(dir.as_str(), p.as_str()),
        _ => Ok(join_paths(dir.as_str(), "src/lib.rs")),
    };
    let lib = match lib {
        Err(e) => return Err(e),
        Ok(l) => l,
    };
    assert(spec_lib_root(dir@, *m) == Ok::<Seq<char>, VdmError>(lib@));
    let mut roots: Vec<String> = Vec::new();
    let mut i: usize = 0;
    assert(m.bin@.take(0) =~= Seq::<RustCargoTarget>::empty());
    assert(strings_view(roots@) =~= Seq::<Seq<char>>::empty());
    while i < m.bin.len()
        invariant
            i <= m.bin@.len(),
            dir@ == parent_or_empty(manifest@),
            spec_bin_roots(dir@, m.bin@.take(i as int)) == Ok::<Seq<Seq<char>>, VdmError>(strings_view(roots@)),
        decreases m.bin@.len() - i,
    {
        assert(m.bin@.take(i + 1).drop_last() =~= m.bin@.take(i as int));
        assert(m.bin@.take(i + 1).last() == m.bin@[i as int]);
        match &m.bin[i].path {
            None => {},
            Some(p) => {
                match joined_plain(dir.as_str(), p.as_str()) {
                    Err(e) => {
                        proof {
                            lemma_bin_roots_error(dir@, m.bin@, i as int + 1, error_kind(e));
                        }
                        assert(m.bin@.take(m.bin@.len() as int) =~= m.bin@);
                        return Err(e);
                    },
                    Ok(q) => {
                        let ghost before = strings_view(roots@);
                        roots.push(q);
                        assert(strings_view(roots@) =~= before.push(q@));
                    },
                }
            },
        }
        i += 1;
    }
    assert(m.bin@.take(m.bin@.len() as int) =~= m.bin@);
    let ghost bins = strings_view(roots@);
    let main = join_paths(dir.as_str(), "src/main.rs");
    let ghost main_v = main@;
    let ghost lib_v = lib@;
    let mut all: Vec<String> = Vec::new();
    all.push(lib);
    let mut k: usize = 0;
    while k < roots.len()
        invariant
            k <= roots@.len(),
            bins == strings_view(roots@),
            all@.len() == k + 1,
            strings_view(all@) == seq![lib_v] + bins.take(k as int),
        decreases roots@.len() - k,
    {
        let ghost before = strings_view(all@);
        all.push(roots[k].clone());
        assert(strings_view(all@) =~= before.push(bins[k as int]));
        assert(bins.take(k + 1) =~= bins.take(k as int).push(bins[k as int]));
        assert(seq![lib_v] + bins.take(k + 1) =~= (seq![lib_v] + bins.take(k as int)).push(bins[k as int]));
        k += 1;
    }
    let ghost middle = strings_view(all@);
    all.push(main);
    assert(strings_view(all@) =~= middle.push(main_v));
    assert(bins.take(bins.len() as int) =~= bins);
    proof {
        let s = strings_view(all@);
        let target = set![lib_v].union(bins.to_set()).insert(main_v);
        assert forall|x: Seq<char>| s.to_set().contains(x) <==> target.contains(x) by {
            if s.to_set().contains(x) {
                let j = choose|j: int| 0 <= j < s.len() && s[j] == x;
                if j == 0 {
                } else if j < s.len() - 1 {
                    assert(bins[j - 1] == x);
                    assert(bins.to_set().contains(x));
                }
            }
            if target.contains(x) {
                if x == lib_v {
                    assert(s[0] == x);
                } else if x == main_v {
                    assert(s[s.len() - 1] == x);
                } else {
                    assert(bins.contains(x));
                    let j = choose|j: int| 0 <= j < bins.len() && bins[j] == x;
                    assert(s[j + 1] == x);
                }
            }
        }
        assert(s.to_set() =~= target);
    }
    let sorted = sorted_unique_strings(all);
    Ok(sorted)
}

proof fn lemma_bin_roots_error(dir: Seq<char>, bins: Seq<RustCargoTarget>, n: int, e: VdmError)
    requires
        0 < n <= bins.len(),
        spec_bin_roots(dir, bins.take(n)) == Err::<Seq<Seq<char>>, VdmError>(e),
    ensures
        spec_bin_roots(dir, bins) == Err::<Seq<Seq<char>>, VdmError>(e),
    decreases bins.len() - n,
{
    if n < bins.len() {
        assert(bins.take(n + 1).drop_last() =~= bins.take(n));
        lemma_bin_roots_error(dir, bins, n + 1, e);
    } else {
        assert(bins.take(n) =~= bins);
    }
}

/// The candidates whose check found a file, in order.
pub open spec fn spec_existing(candidates: Seq<Seq<char>>, exists: Seq<bool>) -> Seq<Seq<char>>
    decreases candidates.len(),
{
    if candidates.len() == 0 {
        Seq::empty()
    } else {
        let n = candidates.len() - 1;
        let rest = spec_existing(candidates.take(n), exists);
        if probed(exists, n) {
            rest.push(candidates[n])
        } else {
            rest
        }
    }
}

/// The candidates whose check found a file, in order.
fn existing_only(candidates: &Vec<String>, exists: &Vec<bool>) -> (r: Vec<String>)
    ensures
        strings_view(r@) == spec_existing(strings_view(candidates@), exists@),
{
    let ghost cv = strings_view(candidates@);
    let mut out: Vec<String> = Vec::new();
    let mut i: usize = 0;
    assert(strings_view(out@) =~= spec_existing(cv.take(0), exists@));
    while i < candidates.len()
        invariant
            i <= candidates@.len(),
            cv == strings_view(candidates@),
            strings_view(out@) == spec_existing(cv.take(i as int), exists@),
        decreases candidates@.len() - i,
    {
        assert(cv.take(i + 1).take(i as int) =~= cv.take(i as int));
        assert(cv.take(i + 1)[i as int] == cv[i as int]);
        if i < exists.len() && exists[i] {
            let ghost before = strings_view(out@);
            out.push(candidates[i].clone());
            assert(strings_view(out@) =~= before.push(cv[i as int]));
        }
        i += 1;
    }
    assert(cv.take(candidates@.len() as int) =~= cv);
    out
}

/// The crate roots of the manifest at `manifest` that exist, in order;
/// refused when none does.
pub fn existing_roots(candidates: &Vec<String>, exists: &Vec<bool>, manifest: &str) -> (r: Result<Vec<String>, VdmError>)
    ensures
        match r {
            Ok(v) => strings_view(v@) == spec_existing(strings_view(candidates@), exists@) && v@.len() > 0,
            Err(e) => (e matches VdmError::RustCrateRootMissing(m) && m@ == manifest@)
                && spec_existing(strings_view(candidates@), exists@).len() == 0,
        },
{
    let found = existing_only(candidates, exists);
    if found.len() == 0 {
        Err(VdmError::RustCrateRootMissing(manifest.to_owned()))
    } else {
        Ok(found)
    }
}

/// The files a module item may be in, in the order they are tried: the file
/// its `#[path]` names beside its source file, else `name.rs` and
/// `name/mod.rs` in its module folder.
pub open spec fn spec_module_candidates(m: RustModItem, module_dir: Seq<char>, path_base: Seq<char>) -> Result<
    Seq<Seq<char>>,
    VdmError,
> {
    match spec_path_attribute(m.attrs@) {
        Err(e) => Err(e),
        Ok(Some(p)) => match spec_joined_plain(path_base, p) {
            Err(e) => Err(e),
            Ok(q) => Ok(seq![q]),
        },
        Ok(None) => match spec_joined_plain(module_dir, m.name@ + ".rs"@) {
            Err(e) => Err(e),
            Ok(a) => match spec_joined_plain(path_join(module_dir, m.name@), "mod.rs"@) {
                Err(e) => Err(e),
                Ok(b) => Ok(seq![a, b]),
            },
        },
    }
}

/// The files a module item may be in.
pub fn module_candidates(m: &RustModItem, module_dir: &str, path_base: &str) -> (r: Result<Vec<String>, VdmError>)
    ensures
        match r {
            Ok(v) => spec_module_candidates(*m, module_dir@, path_base@) == Ok::<Seq<Seq<char>>, VdmError>(
                strings_view(v@),
            ),
            Err(e) => spec_module_candidates(*m, module_dir@, path_base@) == Err::<Seq<Seq<char>>, VdmError>(error_kind(e)),
        },
{
    proof {
        reveal_strlit(".rs");
        reveal_strlit("mod.rs");
    }
    let mut out: Vec<String> = Vec::new();
    match path_attribute(&m.attrs) {
        Err(e) => return Err(e),
        Ok(Some(p)) => {
            match joined_plain(path_base, p.as_str()) {
                Err(e) => return Err(e),
                Ok(q) => out.push(q),
            }
        },
        Ok(None) => {
            let file = string_of(crate::text::concat2(chars_of(m.name.as_str()).as_slice(), chars_of(".rs").as_slice()).as_slice());
            let a = match joined_plain(module_dir, file.as_str()) {
                Err(e) => return Err(e),
                Ok(a) => a,
            };
            let folder = join_paths(module_dir, m.name.as_str());
            let b = match joined_plain(folder.as_str(), "mod.rs") {
                Err(e) => return Err(e),
                Ok(b) => b,
            };
            out.push(a);
            out.push(b);
        },
    }
    assert(strings_view(out@) =~= spec_module_candidates(*m, module_dir@, path_base@)->Ok_0);
    Ok(out)
}

/// The file a module item is in, once each candidate was checked: refused when
/// two exist, or when none does and the item has no `#[cfg]`; `None` when none
/// does and it has one.
pub open spec fn spec_choose_module_file(candidates: Seq<Seq<char>>, exists: Seq<bool>, cfg: bool) -> Result<
    Option<Seq<char>>,
    VdmError,
> {
    let found = spec_existing(candidates, exists);
    if found.len() > 1 {
        Err(error_kind(VdmError::RustModuleAmbiguous(arbitrary())))
    } else if found.len() == 0 {
        if cfg {
            Ok(None)
        } else {
            Err(error_kind(VdmError::RustModuleFileMissing(arbitrary())))
        }
    } else {
        Ok(Some(found[0]))
    }
}

/// The file the module item `name` is in, once each candidate was checked.
pub fn choose_module_file(candidates: &Vec<String>, exists: &Vec<bool>, cfg: bool, name: &str) -> (r: Result<Option<String>, VdmError>)
    ensures
        match r {
            Ok(Some(p)) => spec_choose_module_file(strings_view(candidates@), exists@, cfg) == Ok::<
                Option<Seq<char>>,
                VdmError,
            >(Some(p@)),
            Ok(None) => spec_choose_module_file(strings_view(candidates@), exists@, cfg) == Ok::<
                Option<Seq<char>>,
                VdmError,
            >(None),
            Err(e) => spec_choose_module_file(strings_view(candidates@), exists@, cfg) == Err::<
                Option<Seq<char>>,
                VdmError,
            >(error_kind(e)),
        },
        r matches Err(VdmError::RustModuleAmbiguous(n)) ==> n@ == name@,
        r matches Err(VdmError::RustModuleFileMissing(n)) ==> n@ == name@,
{
    let found = existing_only(candidates, exists);
    if found.len() > 1 {
        Err(VdmError::RustModuleAmbiguous(name.to_owned()))
    } else if found.len() == 0 {
        if cfg {
            Ok(None)
        } else {
            Err(VdmError::RustModuleFileMissing(name.to_owned()))
        }
    } else {
        Ok(Some(found[0].clone()))
    }
}

/// The folder of the modules a module file declares: the file's own folder
/// for a `mod.rs`, else the file's path without its extension.
pub open spec fn spec_child_module_dir(file: Seq<char>) -> Seq<char> {
    if crate::graph::spec_file_name(file) == Some("mod.rs"@) {
        parent_or_empty(file)
    } else {
        std_path_with_extension(file, Seq::empty())
    }
}

/// The folder of the modules a module file declares.
pub fn child_module_dir(file: &str) -> (r: String)
    ensures
        r@ == spec_child_module_dir(file@),
{
    proof {
        reveal_strlit("mod.rs");
        reveal_strlit("");
    }
    let name = crate::graph::file_name(file);
    let is_mod = match &name {
        Some(n) => eq_chars(n.as_slice(), chars_of("mod.rs").as_slice()),
        None => false,
    };
    assert(is_mod == (crate::graph::spec_file_name(file@) == Some("mod.rs"@)));
    if is_mod {
        parent_or_empty_exec(file)
    } else {
        assert(""@ =~= Seq::<char>::empty());
        path_with_extension(file, "")
    }
}

/// A file, or an inline module in it, whose module items are being mounted.
#[derive(Debug)]
pub struct RustLoadFrame {
    module: Vec<String>,
    source: String,
    module_dir: String,
    path_base: String,
    rest: Vec<RustItem>,
}

/// A frame: its module, the file it is in, the folder of its child modules,
/// the folder its `#[path]` attributes are read from, and the items still to
/// mount, the next one last.
pub struct RustFrameView {
    pub module: Seq<Seq<char>>,
    pub source: Seq<char>,
    pub module_dir: Seq<char>,
    pub path_base: Seq<char>,
    pub rest: Seq<RustItem>,
}

/// The view of a frame.
spec fn frame_view(f: RustLoadFrame) -> RustFrameView {
    RustFrameView {
        module: names_view(f.module@),
        source: f.source@,
        module_dir: f.module_dir@,
        path_base: f.path_base@,
        rest: f.rest@,
    }
}

/// What the loader waits for.
#[derive(Debug)]
enum RustLoadWait {
    Idle,
    Read(Vec<String>, String, String),
    Probe(Vec<String>, String, Vec<String>, bool),
}

/// What the loader waits for: nothing; the items of the file `path`, to mount
/// as `module` with child modules in `dir`; or whether each of the
/// `candidates` for the file of child `module` of `source` exists.
pub enum RustWaitView {
    Idle,
    Read { module: Seq<Seq<char>>, path: Seq<char>, dir: Seq<char> },
    Probe { module: Seq<Seq<char>>, source: Seq<char>, candidates: Seq<Seq<char>>, cfg: bool },
}

/// The state of a crate load: the modules, mounted files and declarations so
/// far, the frames being mounted (the innermost last) and what it waits for.
pub struct RustLoaderView {
    pub modules: Seq<(Seq<Seq<char>>, Seq<char>)>,
    pub files: Seq<(Seq<char>, Seq<Seq<char>>)>,
    pub declarations: Seq<(Seq<char>, Seq<char>)>,
    pub frames: Seq<RustFrameView>,
    pub wait: RustWaitView,
}

/// The loading of one crate root's module tree, one step, file read or
/// existence check at a time.
#[derive(Debug)]
pub struct RustCrateLoader {
    resolver: RustResolver,
    frames: Vec<RustLoadFrame>,
    wait: RustLoadWait,
}

/// What the loader needs next.
#[derive(Debug)]
pub enum RustLoadRequest {
    /// The items of this file.
    Read(String),
    /// Whether each of these files exists.
    Probe(Vec<String>),
    /// A step of mounting.
    Step,
    /// Nothing: the module tree is mounted.
    Done,
}

/// The view of what the loader waits for.
spec fn wait_view(w: RustLoadWait) -> RustWaitView {
    match w {
        RustLoadWait::Idle => RustWaitView::Idle,
        RustLoadWait::Read(m, p, d) => RustWaitView::Read { module: names_view(m@), path: p@, dir: d@ },
        RustLoadWait::Probe(m, s, c, cfg) => RustWaitView::Probe {
            module: names_view(m@),
            source: s@,
            candidates: strings_view(c@),
            cfg,
        },
    }
}

impl View for RustCrateLoader {
    type V = RustLoaderView;

    closed spec fn view(&self) -> RustLoaderView {
        RustLoaderView {
            modules: self.resolver.modules_spec(),
            files: self.resolver.files_spec(),
            declarations: self.resolver.declarations_spec(),
            frames: self.frames@.map_values(|f: RustLoadFrame| frame_view(f)),
            wait: wait_view(self.wait),
        }
    }
}

/// Mounting the file `path` as `module`, its child modules in `dir`: a file
/// already mounted as that module is left as it is, one mounted as another
/// module is refused, and a new file is read.
pub open spec fn spec_load_file(s: RustLoaderView, module: Seq<Seq<char>>, path: Seq<char>, dir: Seq<char>) -> Result<
    RustLoaderView,
    VdmError,
> {
    match file_module(s.files, path) {
        Some(existing) => if existing == module {
            Ok(s)
        } else {
            Err(error_kind(VdmError::RustModuleMountedTwice(arbitrary())))
        },
        None => Ok(RustLoaderView { wait: RustWaitView::Read { module, path, dir }, ..s }),
    }
}

/// A load that starts from the crate root `root`.
pub open spec fn spec_load_start(root: Seq<char>) -> RustLoaderView {
    RustLoaderView {
        modules: Seq::empty(),
        files: Seq::empty(),
        declarations: Seq::empty(),
        frames: Seq::empty(),
        wait: RustWaitView::Read { module: Seq::empty(), path: root, dir: parent_or_empty(root) },
    }
}

/// One step of mounting, when the load waits for nothing: the innermost frame
/// ends when it has no item left; otherwise its next item is taken.  An inline
/// module is recorded in the file of its frame and its items are mounted next,
/// with child modules and `#[path]` files in the folder named after it; a
/// module declared without a body waits for the check of its candidate files.
pub open spec fn spec_load_step(s: RustLoaderView) -> Result<RustLoaderView, VdmError> {
    if !(s.wait is Idle) || s.frames.len() == 0 {
        Ok(s)
    } else {
        let f = s.frames.last();
        if f.rest.len() == 0 {
            Ok(RustLoaderView { frames: s.frames.drop_last(), ..s })
        } else {
            let frames = s.frames.drop_last().push(RustFrameView { rest: f.rest.drop_last(), ..f });
            match f.rest.last() {
                RustItem::Other => Ok(RustLoaderView { frames, ..s }),
                RustItem::Module(m) => {
                    let child = f.module.push(m.name@);
                    match m.content {
                        Some(inner) => {
                            let dir = path_join(f.module_dir, m.name@);
                            Ok(
                                RustLoaderView {
                                    modules: s.modules.push((child, f.source)),
                                    frames: frames.push(
                                        RustFrameView {
                                            module: child,
                                            source: f.source,
                                            module_dir: dir,
                                            path_base: dir,
                                            rest: inner@.reverse(),
                                        },
                                    ),
                                    ..s
                                },
                            )
                        },
                        None => match spec_module_candidates(m, f.module_dir, f.path_base) {
                            Err(e) => Err(e),
                            Ok(c) => Ok(
                                RustLoaderView {
                                    frames,
                                    wait: RustWaitView::Probe {
                                        module: child,
                                        source: f.source,
                                        candidates: c,
                                        cfg: spec_has_cfg(m.attrs@),
                                    },
                                    ..s
                                },
                            ),
                        },
                    }
                },
            }
        }
    }
}

/// The items of the awaited file arrive: the file is recorded as the module
/// and as mounted, and its items are mounted next, `#[path]` files read
/// beside it.
pub open spec fn spec_load_read(s: RustLoaderView, items: Seq<RustItem>) -> RustLoaderView {
    match s.wait {
        RustWaitView::Read { module, path, dir } => RustLoaderView {
            modules: s.modules.push((module, path)),
            files: s.files.push((path, module)),
            frames: s.frames.push(
                RustFrameView {
                    module,
                    source: path,
                    module_dir: dir,
                    path_base: parent_or_empty(path),
                    rest: items.reverse(),
                },
            ),
            wait: RustWaitView::Idle,
            ..s
        },
        _ => s,
    }
}

/// The checks of the awaited candidates arrive: the module's file is chosen;
/// when there is one, its declaring file records it and it is mounted.
pub open spec fn spec_load_probed(s: RustLoaderView, exists: Seq<bool>) -> Result<RustLoaderView, VdmError> {
    match s.wait {
        RustWaitView::Probe { module, source, candidates, cfg } => match spec_choose_module_file(
            candidates,
            exists,
            cfg,
        ) {
            Err(e) => Err(e),
            Ok(None) => Ok(RustLoaderView { wait: RustWaitView::Idle, ..s }),
            Ok(Some(child)) => spec_load_file(
                RustLoaderView {
                    declarations: s.declarations.push((source, child)),
                    wait: RustWaitView::Idle,
                    ..s
                },
                module,
                child,
                spec_child_module_dir(child),
            ),
        },
        _ => Ok(s),
    }
}

/// What a load in state `s` needs next.
pub open spec fn spec_load_request(s: RustLoaderView, r: RustLoadRequest) -> bool {
    match r {
        RustLoadRequest::Read(p) => s.wait matches RustWaitView::Read { path, .. } && p@ == path,
        RustLoadRequest::Probe(c) => s.wait matches RustWaitView::Probe { candidates, .. } && strings_view(c@)
            == candidates,
        RustLoadRequest::Step => s.wait is Idle && s.frames.len() > 0,
        RustLoadRequest::Done => s.wait is Idle && s.frames.len() == 0,
    }
}

/// The items in reverse order.
fn reversed(v: Vec<RustItem>) -> (r: Vec<RustItem>)
    ensures
        r@ == v@.reverse(),
{
    let mut v = v;
    let ghost given = v@;
    let mut r: Vec<RustItem> = Vec::new();
    while v.len() > 0
        invariant
            v@ == given.take(v@.len() as int),
            v@.len() <= given.len(),
            r@ == given.skip(v@.len() as int).reverse(),
        decreases v@.len(),
    {
        let ghost n = v@.len();
        let item = v.pop().unwrap();
        r.push(item);
        assert(given.take(n as int).drop_last() =~= given.take(n - 1));
        assert(r@ =~= given.skip(n - 1).reverse());
    }
    assert(given.skip(0) =~= given);
    r
}

impl RustCrateLoader {
    /// A load of the module tree of the crate root `root`, which waits for
    /// the root's items.
    pub fn start(root: String) -> (r: RustCrateLoader)
        ensures
            r@ == spec_load_start(root@),
    {
        let dir = parent_or_empty_exec(root.as_str());
        let top: Vec<String> = Vec::new();
        assert(names_view(top@) =~= Seq::<Seq<char>>::empty());
        let r = RustCrateLoader { resolver: RustResolver::new(), frames: Vec::new(), wait: RustLoadWait::Read(top, root, dir) };
        assert(r@.frames =~= Seq::<RustFrameView>::empty());
        r
    }

    /// What the load needs next.
    pub fn request(&self) -> (r: RustLoadRequest)
        ensures
            spec_load_request(self@, r),
    {
        match &self.wait {
            RustLoadWait::Read(_, path, _) => RustLoadRequest::Read(path.clone()),
            RustLoadWait::Probe(_, _, candidates, _) => {
                let mut c: Vec<String> = Vec::new();
                let mut i: usize = 0;
                while i < candidates.len()
                    invariant
                        i <= candidates@.len(),
                        strings_view(c@) == strings_view(candidates@).take(i as int),
                    decreases candidates@.len() - i,
                {
                    let ghost before = strings_view(c@);
                    c.push(candidates[i].clone());
                    assert(strings_view(c@) =~= before.push(candidates@[i as int]@));
                    assert(strings_view(candidates@).take(i + 1) =~= strings_view(candidates@).take(i as int).push(
                        candidates@[i as int]@,
                    ));
                    i += 1;
                }
                assert(strings_view(candidates@).take(candidates@.len() as int) =~= strings_view(candidates@));
                RustLoadRequest::Probe(c)
            },
            RustLoadWait::Idle => if self.frames.len() > 0 {
                RustLoadRequest::Step
            } else {
                RustLoadRequest::Done
            },
        }
    }

    /// One step of mounting; a load that waits for a file or a check is left
    /// as it is.
    pub fn step(self) -> (r: Result<RustCrateLoader, VdmError>)
        ensures
            match r {
                Ok(l) => spec_load_step(self@) == Ok::<RustLoaderView, VdmError>(l@),
                Err(e) => spec_load_step(self@) == Err::<RustLoaderView, VdmError>(error_kind(e)),
            },
    {
        let ghost s = self@;
        let RustCrateLoader { resolver, frames, wait } = self;
        let mut resolver = resolver;
        let mut frames = frames;
        let idle = match &wait {
            RustLoadWait::Idle => true,
            _ => false,
        };
        if !idle || frames.len() == 0 {
            return Ok(RustCrateLoader { resolver, frames, wait });
        }
        let ghost fv = frames@.map_values(|f: RustLoadFrame| frame_view(f));
        let mut frame = frames.pop().unwrap();
        assert(frames@.map_values(|f: RustLoadFrame| frame_view(f)) =~= fv.drop_last());
        if frame.rest.len() == 0 {
            let r = RustCrateLoader { resolver, frames, wait };
            assert(r@ == (RustLoaderView { frames: s.frames.drop_last(), ..s }));
            return Ok(r);
        }
        let ghost f = frame_view(frame);
        let item = frame.rest.pop().unwrap();
        assert(frame_view(frame) == (RustFrameView { rest: f.rest.drop_last(), ..f }));
        let ghost frames_after = s.frames.drop_last().push(RustFrameView { rest: f.rest.drop_last(), ..f });
        match item {
            RustItem::Other => {
                frames.push(frame);
                let r = RustCrateLoader { resolver, frames, wait };
                assert(r@.frames =~= frames_after);
                Ok(r)
            },
            RustItem::Module(m) => {
                let ghost mv = m;
                let mut child = copy_names(frame.module.as_slice());
                child.push(m.name.clone());
                assert(names_view(child@) =~= f.module.push(m.name@));
                let RustModItem { name, attrs, content } = m;
                match content {
                    Some(inner) => {
                        let dir = join_paths(frame.module_dir.as_str(), name.as_str());
                        resolver.add_module(copy_names(child.as_slice()), frame.source.clone());
                        let source = frame.source.clone();
                        frames.push(frame);
                        let ghost pushed = frames@.map_values(|f: RustLoadFrame| frame_view(f));
                        assert(pushed =~= frames_after);
                        let rest = reversed(inner);
                        let inner_frame = RustLoadFrame {
                            module: child,
                            source,
                            module_dir: dir.clone(),
                            path_base: dir,
                            rest,
                        };
                        frames.push(inner_frame);
                        let r = RustCrateLoader { resolver, frames, wait };
                        assert(r@.frames =~= pushed.push(frame_view(inner_frame)));
                        Ok(r)
                    },
                    None => {
                        let item_ref = RustModItem { name, attrs, content: None };
                        assert(item_ref == mv);
                        let candidates = match module_candidates(&item_ref, frame.module_dir.as_str(), frame.path_base.as_str()) {
                            Err(e) => return Err(e),
                            Ok(c) => c,
                        };
                        let cfg = has_cfg(&item_ref.attrs);
                        let source = frame.source.clone();
                        frames.push(frame);
                        let r = RustCrateLoader {
                            resolver,
                            frames,
                            wait: RustLoadWait::Probe(child, source, candidates, cfg),
                        };
                        assert(r@.frames =~= frames_after);
                        Ok(r)
                    },
                }
            },
        }
    }

    /// The items of the awaited file arrive; a load that waits for no file is
    /// left as it is.
    pub fn read_done(self, items: Vec<RustItem>) -> (r: RustCrateLoader)
        ensures
            r@ == spec_load_read(self@, items@),
    {
        let ghost s = self@;
        let RustCrateLoader { resolver, frames, wait } = self;
        let mut resolver = resolver;
        let mut frames = frames;
        match wait {
            RustLoadWait::Read(module, path, dir) => {
                let ghost fv = frames@.map_values(|f: RustLoadFrame| frame_view(f));
                resolver.add_module(copy_names(module.as_slice()), path.clone());
                resolver.mount_file(path.clone(), copy_names(module.as_slice()));
                let base = parent_or_empty_exec(path.as_str());
                let rest = reversed(items);
                let frame = RustLoadFrame { module, source: path, module_dir: dir, path_base: base, rest };
                frames.push(frame);
                let r = RustCrateLoader { resolver, frames, wait: RustLoadWait::Idle };
                assert(r@.frames =~= fv.push(frame_view(frame)));
                r
            },
            other => RustCrateLoader { resolver, frames, wait: other },
        }
    }

    /// The checks of the awaited candidates arrive, `exists[i]` telling
    /// whether candidate `i` exists; a load that waits for no check is left as
    /// it is.
    pub fn probe_done(self, exists: &Vec<bool>) -> (r: Result<RustCrateLoader, VdmError>)
        ensures
            match r {
                Ok(l) => spec_load_probed(self@, exists@) == Ok::<RustLoaderView, VdmError>(l@),
                Err(e) => spec_load_probed(self@, exists@) == Err::<RustLoaderView, VdmError>(error_kind(e)),
            },
    {
        let ghost s = self@;
        let RustCrateLoader { resolver, frames, wait } = self;
        let mut resolver = resolver;
        match wait {
            RustLoadWait::Probe(module, source, candidates, cfg) => {
                let name = if module.len() > 0 {
                    module[module.len() - 1].clone()
                } else {
                    String::new()
                };
                let child = match choose_module_file(&candidates, exists, cfg, name.as_str()) {
                    Err(e) => return Err(e),
                    Ok(None) => {
                        let r = RustCrateLoader { resolver, frames, wait: RustLoadWait::Idle };
                        return Ok(r);
                    },
                    Ok(Some(c)) => c,
                };
                resolver.declare(source, child.clone());
                let dir = child_module_dir(child.as_str());
                match resolver.file_module(child.as_str()) {
                    Some(existing) => {
                        if same_names(&existing, module.as_slice()) {
                            Ok(RustCrateLoader { resolver, frames, wait: RustLoadWait::Idle })
                        } else {
                            Err(VdmError::RustModuleMountedTwice(child))
                        }
                    },
                    None => Ok(RustCrateLoader { resolver, frames, wait: RustLoadWait::Read(module, child, dir) }),
                }
            },
            other => Ok(RustCrateLoader { resolver, frames, wait: other }),
        }
    }

    /// The crate's modules as loaded so far.
    pub fn finish(self) -> (r: RustResolver)
        ensures
            r.modules_spec() == self@.modules,
            r.files_spec() == self@.files,
            r.declarations_spec() == self@.declarations,
    {
        self.resolver
    }
}

} // verus!
