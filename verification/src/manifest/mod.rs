//! The manifest: which targets are vendored, and at which versions.
pub mod source;
pub mod target;

use vstd::prelude::*;

use crate::error::{error_kind, VdmError};
use crate::manifest::source::{
    file_version, file_with_version, files_entries, first_file_match, lemma_first_file_match, map_file_path,
    spec_files_set_version, FileView, FilesView,
    SourceView, VdmManifestSource, VdmManifestSourceFile,
};
use crate::manifest::target::{spec_join_target, VdmManifestSourceVersion, VdmManifestTargetUrl};
use crate::map::UrlMap;
use crate::source::input::{
    any_key, any_result_view, spec_normalize_base, spec_parse_manifest_target, spec_parse_target_safe,
    spec_manifest_input, AnyTargetView, VdmAnyTarget, VdmSourceInput,
};
use crate::target::VdmTarget;
use crate::text::eq_chars;

verus! {

/// The manifest: its entries by key, in key order.
#[derive(Debug)]
pub struct VdmManifest {
    sources: UrlMap<VdmManifestSource>,
}

/// The mathematical form of a manifest: keys in order, and their entries.
pub struct ManifestView {
    pub keys: Seq<Seq<char>>,
    pub sources: Seq<SourceView>,
}

impl View for VdmManifest {
    type V = ManifestView;

    closed spec fn view(&self) -> ManifestView {
        ManifestView {
            keys: self.sources.keys(),
            sources: self.sources.values().map_values(|s: VdmManifestSource| s@),
        }
    }
}

/// The entry of a manifest at `key`.
pub open spec fn manifest_lookup(m: ManifestView, key: Seq<char>) -> Option<SourceView> {
    match crate::map::key_index(m.keys, key) {
        Some(i) => Some(m.sources[i]),
        None => None,
    }
}

/// The entry after updating the target `url` to `version` through the entry
/// at `base`: a single target whose key is `url`, or a grouped source listing it.
pub open spec fn spec_source_updated(base: Seq<char>, s: SourceView, url: Seq<char>, version: Seq<char>) -> Option<SourceView> {
    match s {
        SourceView::File(f) => if base == url {
            Some(SourceView::File(file_with_version(f, version)))
        } else {
            None
        },
        SourceView::Files(g) => match spec_files_set_version(g, base, url, version) {
            Some(g2) => Some(SourceView::Files(g2)),
            None => None,
        },
    }
}

/// The first entry, in key order from `start`, through which `url` is updated.
pub open spec fn first_update(m: ManifestView, url: Seq<char>, version: Seq<char>, start: int) -> Option<(int, SourceView)>
    decreases m.keys.len() - start,
{
    if start < 0 || start >= m.keys.len() {
        None
    } else {
        match spec_source_updated(m.keys[start], m.sources[start], url, version) {
            Some(s) => Some((start, s)),
            None => first_update(m, url, version, start + 1),
        }
    }
}

/// The targets an entry stands for, as (key, version) pairs.
pub open spec fn source_entries(base: Seq<char>, s: SourceView) -> Seq<(Seq<char>, Seq<char>)> {
    match s {
        SourceView::File(f) => seq![(base, file_version(f))],
        SourceView::Files(g) => files_entries(g).map_values(
            |e: (Seq<char>, Seq<char>)| (spec_join_target(base, e.0), e.1),
        ),
    }
}

/// The targets of the first `n` entries, in key order.
pub open spec fn manifest_entries_upto(m: ManifestView, n: int) -> Seq<(Seq<char>, Seq<char>)>
    decreases n,
{
    if n <= 0 || n > m.keys.len() {
        Seq::empty()
    } else {
        manifest_entries_upto(m, n - 1) + source_entries(m.keys[n - 1], m.sources[n - 1])
    }
}

/// The targets of all entries, in key order.
pub open spec fn manifest_entries(m: ManifestView) -> Seq<(Seq<char>, Seq<char>)> {
    manifest_entries_upto(m, m.keys.len() as int)
}

/// Reading every target of the manifest is free of the panic in `git2`.
pub open spec fn manifest_safe(m: ManifestView) -> bool {
    forall|i: int| 0 <= i < manifest_entries(m).len() ==> #[trigger] spec_parse_target_safe(
        spec_manifest_input(manifest_entries(m)[i].0, manifest_entries(m)[i].1),
    )
}

/// Why reading the targets or the entries of a manifest stops: one that
/// cannot be read, or a key that two of them share.
pub enum CollectFailure {
    Unreadable(VdmError),
    Duplicate(Seq<char>),
}

/// The targets read from a sequence of results: the first error stops the
/// reading, and so does a key that an earlier target already has.
pub open spec fn spec_collect_targets(results: Seq<Result<AnyTargetView, VdmError>>) -> Result<Seq<AnyTargetView>, CollectFailure>
    decreases results.len(),
{
    if results.len() == 0 {
        Ok(Seq::empty())
    } else {
        match spec_collect_targets(results.drop_last()) {
            Err(e) => Err(e),
            Ok(ts) => match results.last() {
                Err(e) => Err(CollectFailure::Unreadable(e)),
                Ok(t) => if ts.map_values(|x: AnyTargetView| any_key(x)).contains(any_key(t)) {
                    Err(CollectFailure::Duplicate(any_key(t)))
                } else {
                    Ok(ts.push(t))
                },
            },
        }
    }
}

/// The canonical key of a manifest entry: that of its target for a single
/// target, that of its base for a grouped source.
pub open spec fn spec_entry_key(key: Seq<char>, s: SourceView) -> Result<Seq<char>, VdmError> {
    match s {
        SourceView::File(f) => match spec_parse_manifest_target(key, file_version(f)) {
            Ok(t) => Ok(any_key(t)),
            Err(e) => Err(e),
        },
        SourceView::Files(_) => spec_normalize_base(key),
    }
}

/// Normalizing the key of an entry is free of the panic in `git2`.
pub open spec fn spec_entry_key_safe(key: Seq<char>, s: SourceView) -> bool {
    match s {
        SourceView::File(f) => spec_parse_target_safe(spec_manifest_input(key, file_version(f))),
        SourceView::Files(_) => spec_parse_target_safe(key),
    }
}

/// The entries of a manifest document with their keys normalized: the first
/// error stops, and so does a key that an earlier entry already has.
pub open spec fn spec_normalize_entries(entries: Seq<(Seq<char>, SourceView)>) -> Result<Seq<(Seq<char>, SourceView)>, CollectFailure>
    decreases entries.len(),
{
    if entries.len() == 0 {
        Ok(Seq::empty())
    } else {
        match spec_normalize_entries(entries.drop_last()) {
            Err(e) => Err(e),
            Ok(done) => match spec_entry_key(entries.last().0, entries.last().1) {
                Err(e) => Err(CollectFailure::Unreadable(e)),
                Ok(k) => if done.map_values(|d: (Seq<char>, SourceView)| d.0).contains(k) {
                    Err(CollectFailure::Duplicate(k))
                } else {
                    Ok(done.push((k, entries.last().1)))
                },
            },
        }
    }
}

impl VdmManifest {
    /// The manifest is well formed: its keys are strictly increasing.
    pub closed spec fn wf(&self) -> bool {
        self.sources.wf()
    }

    /// An empty manifest.
    pub fn new() -> (r: Self)
        ensures
            r.wf(),
            r@.keys == Seq::<Seq<char>>::empty(),
    {
        VdmManifest { sources: UrlMap::new() }
    }

    /// Adds (or replaces) the single target `url` at `version`, written as a bare version.
    pub fn add(&mut self, url: &VdmManifestTargetUrl, version: &VdmManifestSourceVersion)
        requires
            old(self).wf(),
        ensures
            final(self).wf(),
            manifest_lookup(final(self)@, url@) == Some(SourceView::File(FileView::Version(version@))),
            forall|k: Seq<char>| k != url@ ==> manifest_lookup(final(self)@, k) == manifest_lookup(old(self)@, k),
            final(self)@.keys.to_set() == old(self)@.keys.to_set().insert(url@),
    {
        let source = VdmManifestSource::File(VdmManifestSourceFile::Version(version.clone()));
        let ghost sv = source@;
        self.sources.insert(url.clone(), source);
        proof {
            lemma_lookup_view(&self.sources, url@);
            assert forall|k: Seq<char>| k != url@ implies manifest_lookup(self@, k) == manifest_lookup(old(self)@, k) by {
                lemma_lookup_view(&self.sources, k);
                lemma_lookup_view(&old(self).sources, k);
            }
        }
    }

    /// Sets the version of the target `url`, through the first entry in key
    /// order that holds it.
    pub fn update(&mut self, url: &VdmManifestTargetUrl, version: &VdmManifestSourceVersion) -> (r: Result<(), VdmError>)
        requires
            old(self).wf(),
        ensures
            final(self).wf(),
            match first_update(old(self)@, url@, version@, 0) {
                Some((i, s)) => r is Ok && final(self)@.keys == old(self)@.keys
                    && final(self)@.sources == old(self)@.sources.update(i, s),
                None => (r matches Err(VdmError::NotInManifest(u)) && u@ == url@) && final(self)@ == old(self)@,
            },
    {
        let ghost m = self@;
        let n = self.sources.len();
        let u = url.to_chars();
        let mut i: usize = 0;
        while i < n
            invariant
                self.wf(),
                self@ == m,
                old(self)@ == m,
                n == m.keys.len(),
                m.sources.len() == m.keys.len(),
                i <= n,
                u@ == url@,
                first_update(m, url@, version@, 0) == first_update(m, url@, version@, i as int),
            decreases n - i,
        {
            let (base, source) = self.sources.entry(i);
            assert(base@ == m.keys[i as int] && source@ == m.sources[i as int]);
            let updated = match source {
                VdmManifestSource::File(file) => {
                    if eq_chars(base.to_chars().as_slice(), u.as_slice()) {
                        let mut f = file.clone();
                        f.set_version(version);
                        Some(VdmManifestSource::File(f))
                    } else {
                        None
                    }
                },
                VdmManifestSource::Files(files) => {
                    let mut g = files.clone();
                    if g.set_version(base, url, version) {
                        Some(VdmManifestSource::Files(g))
                    } else {
                        None
                    }
                },
            };
            match updated {
                Some(s) => {
                    let ghost sv = s@;
                    assert(spec_source_updated(m.keys[i as int], m.sources[i as int], url@, version@) == Some(sv));
                    self.sources.set_value(i, s);
                    proof {
                        assert(self@.sources =~= m.sources.update(i as int, sv));
                        assert(first_update(m, url@, version@, i as int) == Some((i as int, sv)));
                    }
                    return Ok(());
                },
                None => {
                    assert(spec_source_updated(m.keys[i as int], m.sources[i as int], url@, version@) is None);
                    assert(first_update(m, url@, version@, i as int) == first_update(m, url@, version@, i + 1));
                },
            }
            i += 1;
        }
        Err(VdmError::NotInManifest(url.as_str().to_owned()))
    }

    /// The (key, version) pair of every target, in key order.
    pub fn entries(&self) -> (r: Vec<(VdmManifestTargetUrl, VdmManifestSourceVersion)>)
        requires
            self.wf(),
        ensures
            r@.map_values(|e: (VdmManifestTargetUrl, VdmManifestSourceVersion)| (e.0@, e.1@)) == manifest_entries(self@),
    {
        let ghost m = self@;
        let n = self.sources.len();
        let mut r: Vec<(VdmManifestTargetUrl, VdmManifestSourceVersion)> = Vec::new();
        let mut i: usize = 0;
        while i < n
            invariant
                self@ == m,
                n == m.keys.len(),
                m.sources.len() == m.keys.len(),
                i <= n,
                r@.map_values(|e: (VdmManifestTargetUrl, VdmManifestSourceVersion)| (e.0@, e.1@)) == manifest_entries_upto(m, i as int),
            decreases n - i,
        {
            let ghost before = r@.map_values(|e: (VdmManifestTargetUrl, VdmManifestSourceVersion)| (e.0@, e.1@));
            let (base, source) = self.sources.entry(i);
            assert(base@ == m.keys[i as int] && source@ == m.sources[i as int]);
            match source {
                VdmManifestSource::File(file) => {
                    r.push((base.clone(), file.version().clone()));
                    assert(r@.map_values(|e: (VdmManifestTargetUrl, VdmManifestSourceVersion)| (e.0@, e.1@)) =~= before + source_entries(m.keys[i as int], m.sources[i as int]));
                },
                VdmManifestSource::Files(files) => {
                    let listed = files.iter_versions();
                    let ghost lv = listed@.map_values(|e: (crate::manifest::target::VdmManifestTargetPath, VdmManifestSourceVersion)| (e.0@, e.1@));
                    let mut j: usize = 0;
                    while j < listed.len()
                        invariant
                            j <= listed@.len(),
                            lv == listed@.map_values(|e: (crate::manifest::target::VdmManifestTargetPath, VdmManifestSourceVersion)| (e.0@, e.1@)),
                            r@.map_values(|e: (VdmManifestTargetUrl, VdmManifestSourceVersion)| (e.0@, e.1@)) =~= before + lv.take(j as int).map_values(
                                |e: (Seq<char>, Seq<char>)| (spec_join_target(base@, e.0), e.1),
                            ),
                        decreases listed@.len() - j,
                    {
                        let (path, version) = &listed[j];
                        let ghost rv = r@.map_values(|e: (VdmManifestTargetUrl, VdmManifestSourceVersion)| (e.0@, e.1@));
                        let joined = base.join(path);
                        let v = version.clone();
                        r.push((joined, v));
                        proof {
                            assert(lv[j as int] == (path@, version@));
                            assert(r@.map_values(|e: (VdmManifestTargetUrl, VdmManifestSourceVersion)| (e.0@, e.1@)) =~= rv.push((spec_join_target(base@, path@), version@)));
                            assert(lv.take(j + 1) =~= lv.take(j as int).push(lv[j as int]));
                            assert(lv.take(j + 1).map_values(|e: (Seq<char>, Seq<char>)| (spec_join_target(base@, e.0), e.1)) =~= lv.take(j as int).map_values(|e: (Seq<char>, Seq<char>)| (spec_join_target(base@, e.0), e.1)).push((spec_join_target(base@, path@), version@)));
                        }
                        j += 1;
                    }
                    assert(lv.take(lv.len() as int) =~= lv);
                },
            }
            i += 1;
        }
        r
    }

    /// Reads the target of every entry, in key order.
    pub fn iter_targets(&self) -> (r: Vec<Result<VdmAnyTarget, VdmError>>)
        requires
            self.wf(),
            manifest_safe(self@),
        ensures
            r@.len() == manifest_entries(self@).len(),
            forall|i: int| 0 <= i < r@.len() ==> any_result_view(#[trigger] r@[i]) == spec_parse_manifest_target(
                manifest_entries(self@)[i].0,
                manifest_entries(self@)[i].1,
            ),
    {
        let entries = self.entries();
        let ghost es = manifest_entries(self@);
        let mut r: Vec<Result<VdmAnyTarget, VdmError>> = Vec::new();
        let mut i: usize = 0;
        while i < entries.len()
            invariant
                i <= entries@.len(),
                es == manifest_entries(self@),
                manifest_safe(self@),
                entries@.map_values(|e: (VdmManifestTargetUrl, VdmManifestSourceVersion)| (e.0@, e.1@)) == es,
                r@.len() == i,
                forall|k: int| 0 <= k < i ==> any_result_view(#[trigger] r@[k]) == spec_parse_manifest_target(es[k].0, es[k].1),
            decreases entries@.len() - i,
        {
            let (key, version) = &entries[i];
            assert((key@, version@) == es[i as int]);
            assert(spec_parse_target_safe(spec_manifest_input(es[i as int].0, es[i as int].1)));
            r.push(VdmSourceInput::parse_manifest_target(key, version));
            i += 1;
        }
        r
    }

    /// Reads every target of the manifest into a map by key; fails on the
    /// first target that cannot be read and on a key that two entries share.
    #[verifier::rlimit(60)]
    pub fn targets(&self) -> (r: Result<UrlMap<VdmAnyTarget>, VdmError>)
        requires
            self.wf(),
            manifest_safe(self@),
        ensures
            match spec_collect_targets(manifest_results(self@)) {
                Ok(ts) => match r {
                    Ok(m) => m.wf() && m.keys().to_set() == ts.map_values(|t: AnyTargetView| any_key(t)).to_set()
                        && forall|i: int| 0 <= i < ts.len() ==> #[trigger] opt_any_view(m.lookup(any_key(ts[i]))) == Some(ts[i]),
                    Err(_) => false,
                },
                Err(CollectFailure::Unreadable(e)) => r matches Err(x) && error_kind(x) == e,
                Err(CollectFailure::Duplicate(k)) => r matches Err(VdmError::DuplicateManifestTarget(s)) && s@ == k,
            },
    {
        let results = self.iter_targets();
        let ghost rs = manifest_results(self@);
        assert(results@.map_values(|x: Result<VdmAnyTarget, VdmError>| any_result_view(x)) =~= rs);
        let mut map: UrlMap<VdmAnyTarget> = UrlMap::new();
        let mut results = results;
        let mut i: usize = 0;
        let n = results.len();
        let ghost mut ts: Seq<AnyTargetView> = Seq::empty();
        assert(rs.take(0) =~= Seq::<Result<AnyTargetView, VdmError>>::empty());
        while i < n
            invariant
                n == results@.len(),
                i <= n,
                results@.map_values(|x: Result<VdmAnyTarget, VdmError>| any_result_view(x)).skip(i as int) == rs.skip(i as int),
                rs.len() == n,
                rs == manifest_results(self@),
                map.wf(),
                spec_collect_targets(rs.take(i as int)) == Ok::<Seq<AnyTargetView>, CollectFailure>(ts),
                map.keys().to_set() == ts.map_values(|t: AnyTargetView| any_key(t)).to_set(),
                forall|j: int| 0 <= j < ts.len() ==> #[trigger] opt_any_view(map.lookup(any_key(ts[j]))) == Some(ts[j]),
            decreases n - i,
        {
            assert(rs.take(i + 1).drop_last() =~= rs.take(i as int));
            assert(rs.take(i + 1).last() == rs[i as int]);
            let ghost before = results@;
            let item = take_result(&mut results, i);
            proof {
                assert(any_result_view(item) == rs[i as int]) by {
                    assert(rs.skip(i as int)[0] == rs[i as int]);
                    assert(before.map_values(|x: Result<VdmAnyTarget, VdmError>| any_result_view(x)).skip(i as int)[0] == rs.skip(i as int)[0]);
                }
                assert forall|j: int| 0 <= j < n - i - 1 implies results@.map_values(|x: Result<VdmAnyTarget, VdmError>| any_result_view(x)).skip(i + 1)[j] == #[trigger] rs.skip(i + 1)[j] by {
                    assert(results@[i + 1 + j] == before[i + 1 + j]);
                    assert(before.map_values(|x: Result<VdmAnyTarget, VdmError>| any_result_view(x)).skip(i as int)[j + 1] == rs.skip(i as int)[j + 1]);
                }
                assert(results@.map_values(|x: Result<VdmAnyTarget, VdmError>| any_result_view(x)).skip(i + 1) =~= rs.skip(i + 1));
            }
            match item {
                Err(e) => {
                    proof {
                        assert(spec_collect_targets(rs.take(i + 1)) == Err::<Seq<AnyTargetView>, CollectFailure>(CollectFailure::Unreadable(error_kind(e))));
                        lemma_collect_error_stays(rs, i as int + 1);
                        assert(rs.take(n as int) =~= rs);
                    }
                    return Err(e);
                },
                Ok(t) => {
                    let key = t.key().clone();
                    let ghost tv = t@;
                    assert(key@ == any_key(tv)) by {
                        match t {
                            VdmAnyTarget::Git(g) => {},
                            VdmAnyTarget::Http(h) => {},
                        }
                    }
                    if map.contains_key(&key) {
                        proof {
                            assert(ts.map_values(|x: AnyTargetView| any_key(x)).contains(any_key(tv))) by {
                                assert(map.keys().to_set().contains(key@));
                                assert(ts.map_values(|x: AnyTargetView| any_key(x)).to_set().contains(key@));
                            }
                            assert(spec_collect_targets(rs.take(i + 1)) == Err::<Seq<AnyTargetView>, CollectFailure>(CollectFailure::Duplicate(any_key(tv))));
                            lemma_collect_error_stays(rs, i as int + 1);
                            assert(rs.take(n as int) =~= rs);
                        }
                        return Err(VdmError::DuplicateManifestTarget(key.as_str().to_owned()));
                    }
                    proof {
                        assert(!ts.map_values(|x: AnyTargetView| any_key(x)).contains(any_key(tv))) by {
                            if ts.map_values(|x: AnyTargetView| any_key(x)).contains(any_key(tv)) {
                                assert(ts.map_values(|x: AnyTargetView| any_key(x)).to_set().contains(key@));
                            }
                        }
                    }
                    let ghost old_ts = ts;
                    map.insert(key, t);
                    proof {
                        ts = ts.push(tv);
                        assert(ts.map_values(|x: AnyTargetView| any_key(x)) =~= old_ts.map_values(|x: AnyTargetView| any_key(x)).push(any_key(tv)));
                        old_ts.map_values(|x: AnyTargetView| any_key(x)).lemma_push_to_set_commute(any_key(tv));
                        assert forall|j: int| 0 <= j < ts.len() implies #[trigger] opt_any_view(map.lookup(any_key(ts[j]))) == Some(ts[j]) by {
                            if j < old_ts.len() {
                                assert(ts[j] == old_ts[j]);
                                if any_key(old_ts[j]) == any_key(tv) {
                                    assert(old_ts.map_values(|x: AnyTargetView| any_key(x))[j] == any_key(tv));
                                }
                            }
                        }
                    }
                },
            }
            i += 1;
        }
        assert(rs.take(n as int) =~= rs);
        Ok(map)
    }

    /// Builds a manifest from document entries, normalizing each key (the
    /// key of its target, or of its base for a grouped source) and refusing
    /// two entries with one key.
    #[verifier::rlimit(60)]
    pub fn from_entries(entries: Vec<(VdmManifestTargetUrl, VdmManifestSource)>) -> (r: Result<VdmManifest, VdmError>)
        requires
            forall|i: int| 0 <= i < entries@.len() ==> #[trigger] spec_entry_key_safe(entries@[i].0@, entries@[i].1@),
        ensures
            match spec_normalize_entries(entries@.map_values(|e: (VdmManifestTargetUrl, VdmManifestSource)| (e.0@, e.1@))) {
                Ok(ns) => match r {
                    Ok(m) => m.wf() && m@.keys.to_set() == ns.map_values(|d: (Seq<char>, SourceView)| d.0).to_set()
                        && forall|i: int| 0 <= i < ns.len() ==> #[trigger] manifest_lookup(m@, ns[i].0) == Some(ns[i].1),
                    Err(_) => false,
                },
                Err(CollectFailure::Unreadable(e)) => r matches Err(x) && error_kind(x) == e,
                Err(CollectFailure::Duplicate(k)) => r matches Err(VdmError::DuplicateManifestSource(s)) && s@ == k,
            },
    {
        let ghost es = entries@.map_values(|e: (VdmManifestTargetUrl, VdmManifestSource)| (e.0@, e.1@));
        let mut sources: UrlMap<VdmManifestSource> = UrlMap::new();
        let ghost mut ns: Seq<(Seq<char>, SourceView)> = Seq::empty();
        let n = entries.len();
        assert(es.take(0) =~= Seq::<(Seq<char>, SourceView)>::empty());
        let mut i: usize = 0;
        while i < n
            invariant
                n == entries@.len(),
                i <= n,
                es.len() == n,
                es == entries@.map_values(|e: (VdmManifestTargetUrl, VdmManifestSource)| (e.0@, e.1@)),
                forall|k: int| 0 <= k < n ==> #[trigger] entries@[k].0@ == es[k].0 && entries@[k].1@ == es[k].1,
                forall|k: int| 0 <= k < n ==> #[trigger] spec_entry_key_safe(es[k].0, es[k].1),
                sources.wf(),
                spec_normalize_entries(es.take(i as int)) == Ok::<Seq<(Seq<char>, SourceView)>, CollectFailure>(ns),
                sources.keys().to_set() == ns.map_values(|d: (Seq<char>, SourceView)| d.0).to_set(),
                forall|j: int| 0 <= j < ns.len() ==> #[trigger] opt_source_view(sources.lookup(ns[j].0)) == Some(ns[j].1),
            decreases n - i,
        {
            assert(es.take(i + 1).drop_last() =~= es.take(i as int));
            assert(es.take(i + 1).last() == es[i as int]);
            let key = &entries[i].0;
            let source = &entries[i].1;
            let normalized = entry_key(key, source);
            let k = match normalized {
                Err(e) => {
                    proof {
                        lemma_normalize_error_stays(es, i as int + 1);
                        assert(es.take(n as int) =~= es);
                    }
                    return Err(e);
                },
                Ok(k) => k,
            };
            if sources.contains_key(&k) {
                proof {
                    assert(ns.map_values(|d: (Seq<char>, SourceView)| d.0).to_set().contains(k@));
                    lemma_normalize_error_stays(es, i as int + 1);
                    assert(es.take(n as int) =~= es);
                }
                return Err(VdmError::DuplicateManifestSource(k.as_str().to_owned()));
            }
            proof {
                assert(!ns.map_values(|d: (Seq<char>, SourceView)| d.0).contains(k@)) by {
                    if ns.map_values(|d: (Seq<char>, SourceView)| d.0).contains(k@) {
                        assert(ns.map_values(|d: (Seq<char>, SourceView)| d.0).to_set().contains(k@));
                    }
                }
            }
            let value = source.clone();
            let ghost sv = value@;
            let ghost old_ns = ns;
            sources.insert(k.clone(), value);
            proof {
                ns = ns.push((k@, sv));
                assert(ns.map_values(|d: (Seq<char>, SourceView)| d.0) =~= old_ns.map_values(|d: (Seq<char>, SourceView)| d.0).push(k@));
                old_ns.map_values(|d: (Seq<char>, SourceView)| d.0).lemma_push_to_set_commute(k@);
                assert forall|j: int| 0 <= j < ns.len() implies #[trigger] opt_source_view(sources.lookup(ns[j].0)) == Some(ns[j].1) by {
                    if j < old_ns.len() {
                        assert(ns[j] == old_ns[j]);
                        if old_ns[j].0 == k@ {
                            assert(old_ns.map_values(|d: (Seq<char>, SourceView)| d.0)[j] == k@);
                        }
                    }
                }
            }
            i += 1;
        }
        assert(es.take(n as int) =~= es);
        let m = VdmManifest { sources };
        proof {
            assert forall|j: int| 0 <= j < ns.len() implies #[trigger] manifest_lookup(m@, ns[j].0) == Some(ns[j].1) by {
                lemma_lookup_view(&m.sources, ns[j].0);
            }
        }
        Ok(m)
    }

    /// The entry at `key`.
    pub fn get(&self, key: &VdmManifestTargetUrl) -> (r: Option<&VdmManifestSource>)
        requires
            self.wf(),
        ensures
            opt_source_ref_view(r) == manifest_lookup(self@, key@),
    {
        let r = self.sources.get(key);
        proof {
            lemma_lookup_view(&self.sources, key@);
        }
        r
    }

    /// The number of entries.
    pub fn len(&self) -> (r: usize)
        ensures
            r == self@.keys.len(),
    {
        self.sources.len()
    }

    /// The key and entry at position `i` of the key order.
    pub fn entry(&self, i: usize) -> (r: (&VdmManifestTargetUrl, &VdmManifestSource))
        requires
            i < self@.keys.len(),
        ensures
            r.0@ == self@.keys[i as int],
            r.1@ == self@.sources[i as int],
    {
        proof {
            self.sources.lemma_same_length();
        }
        self.sources.entry(i)
    }
}

/// The results of reading every target of a manifest.
pub open spec fn manifest_results(m: ManifestView) -> Seq<Result<AnyTargetView, VdmError>> {
    manifest_entries(m).map_values(|e: (Seq<char>, Seq<char>)| spec_parse_manifest_target(e.0, e.1))
}

/// The view of an optional target.
pub open spec fn opt_any_view(t: Option<VdmAnyTarget>) -> Option<AnyTargetView> {
    match t {
        Some(t) => Some(t@),
        None => None,
    }
}

/// The view of an optional entry.
pub open spec fn opt_source_view(s: Option<VdmManifestSource>) -> Option<SourceView> {
    match s {
        Some(s) => Some(s@),
        None => None,
    }
}

/// The view of an optional entry reference.
pub open spec fn opt_source_ref_view(s: Option<&VdmManifestSource>) -> Option<SourceView> {
    match s {
        Some(s) => Some(s@),
        None => None,
    }
}

proof fn lemma_lookup_view(m: &UrlMap<VdmManifestSource>, key: Seq<char>)
    ensures
        opt_source_view(m.lookup(key)) == manifest_lookup(
            ManifestView { keys: m.keys(), sources: m.values().map_values(|s: VdmManifestSource| s@) },
            key,
        ),
{
    if let Some(i) = crate::map::key_index(m.keys(), key) {
        crate::map::lemma_key_index_in_range(m.keys(), key);
        m.lemma_same_length();
    }
}

/// Once reading the targets fails it stays failed.
proof fn lemma_collect_error_stays(rs: Seq<Result<AnyTargetView, VdmError>>, n: int)
    requires
        0 <= n <= rs.len(),
        spec_collect_targets(rs.take(n)) is Err,
    ensures
        spec_collect_targets(rs) == spec_collect_targets(rs.take(n)),
    decreases rs.len() - n,
{
    if n < rs.len() {
        assert(rs.take(n + 1).drop_last() =~= rs.take(n));
        lemma_collect_error_stays(rs, n + 1);
    } else {
        assert(rs.take(n) =~= rs);
    }
}

/// Once normalizing the entries fails it stays failed.
proof fn lemma_normalize_error_stays(es: Seq<(Seq<char>, SourceView)>, n: int)
    requires
        0 <= n <= es.len(),
        spec_normalize_entries(es.take(n)) is Err,
    ensures
        spec_normalize_entries(es) == spec_normalize_entries(es.take(n)),
    decreases es.len() - n,
{
    if n < es.len() {
        assert(es.take(n + 1).drop_last() =~= es.take(n));
        lemma_normalize_error_stays(es, n + 1);
    } else {
        assert(es.take(n) =~= es);
    }
}

/// The canonical key of the entry `source` written under `key`.
fn entry_key(key: &VdmManifestTargetUrl, source: &VdmManifestSource) -> (r: Result<VdmManifestTargetUrl, VdmError>)
    requires
        spec_entry_key_safe(key@, source@),
    ensures
        match r {
            Ok(k) => spec_entry_key(key@, source@) == Ok::<Seq<char>, VdmError>(k@),
            Err(e) => spec_entry_key(key@, source@) == Err::<Seq<char>, VdmError>(error_kind(e)),
        },
{
    match source {
        VdmManifestSource::File(file) => match VdmSourceInput::parse_manifest_target(key, file.version()) {
            Ok(t) => {
                let k = t.key().clone();
                assert(k@ == any_key(t@)) by {
                    match t {
                        VdmAnyTarget::Git(g) => {},
                        VdmAnyTarget::Http(h) => {},
                    }
                }
                Ok(k)
            },
            Err(e) => Err(e),
        },
        VdmManifestSource::Files(_) => VdmSourceInput::normalize_base(key.as_str()),
    }
}

/// Moves the result at position `i` out, leaving an error in its place.
fn take_result(results: &mut Vec<Result<VdmAnyTarget, VdmError>>, i: usize) -> (r: Result<VdmAnyTarget, VdmError>)
    requires
        i < old(results)@.len(),
    ensures
        r == old(results)@[i as int],
        final(results)@.len() == old(results)@.len(),
        forall|k: int| 0 <= k < old(results)@.len() && k != i ==> final(results)@[k] == old(results)@[k],
{
    let placeholder: Result<VdmAnyTarget, VdmError> = Err(VdmError::EmptyGraph);
    results.push(placeholder);
    let taken = results.swap_remove(i);
    taken
}

/// Every result is a target, and no two targets share a key.
pub open spec fn results_distinct_targets(rs: Seq<Result<AnyTargetView, VdmError>>) -> bool {
    &&& forall|i: int| 0 <= i < rs.len() ==> #[trigger] rs[i] is Ok
    &&& forall|i: int, j: int| 0 <= i < j < rs.len() ==> any_key(#[trigger] rs[i]->Ok_0) != any_key(#[trigger] rs[j]->Ok_0)
}

/// Reading the targets of a manifest, as its results show it: it succeeds
/// exactly when every entry reads as a target and no two targets share a key;
/// then it gives every target read, in order, one for each entry.
pub proof fn lemma_collect_targets(rs: Seq<Result<AnyTargetView, VdmError>>)
    ensures
        spec_collect_targets(rs) is Ok <==> results_distinct_targets(rs),
        spec_collect_targets(rs) matches Ok(ts) ==> ts.len() == rs.len()
            && forall|i: int| 0 <= i < rs.len() ==> #[trigger] rs[i] == Ok::<AnyTargetView, VdmError>(ts[i]),
    decreases rs.len(),
{
    if rs.len() > 0 {
        let init = rs.drop_last();
        let n = rs.len() - 1;
        lemma_collect_targets(init);
        assert forall|i: int| 0 <= i < n implies #[trigger] init[i] == rs[i] by {}
        if results_distinct_targets(rs) {
            assert forall|i: int| 0 <= i < init.len() implies #[trigger] init[i] is Ok by {
                assert(rs[i] is Ok);
            }
            assert forall|i: int, j: int| 0 <= i < j < init.len() implies any_key(#[trigger] init[i]->Ok_0) != any_key(
                #[trigger] init[j]->Ok_0,
            ) by {
                assert(any_key(rs[i]->Ok_0) != any_key(rs[j]->Ok_0));
            }
        }
        match spec_collect_targets(init) {
            Err(_) => {
                if results_distinct_targets(rs) {
                    assert(results_distinct_targets(init));
                }
            },
            Ok(ts) => {
                let keys = ts.map_values(|x: AnyTargetView| any_key(x));
                match rs.last() {
                    Err(_) => {
                        assert(!(rs[n] is Ok));
                    },
                    Ok(t) => {
                        if keys.contains(any_key(t)) {
                            let i = choose|i: int| 0 <= i < keys.len() && keys[i] == any_key(t);
                            assert(init[i] == Ok::<AnyTargetView, VdmError>(ts[i]));
                            assert(rs[i]->Ok_0 == ts[i]);
                            assert(any_key(rs[i]->Ok_0) == any_key(rs[n]->Ok_0));
                        } else {
                            let out = ts.push(t);
                            assert forall|i: int| 0 <= i < rs.len() implies #[trigger] rs[i] == Ok::<AnyTargetView, VdmError>(out[i]) by {
                                if i < n {
                                    assert(init[i] == Ok::<AnyTargetView, VdmError>(ts[i]));
                                }
                            }
                            assert forall|i: int, j: int| 0 <= i < j < rs.len() implies any_key(#[trigger] rs[i]->Ok_0) != any_key(
                                #[trigger] rs[j]->Ok_0,
                            ) by {
                                if j == n {
                                    assert(rs[i] == Ok::<AnyTargetView, VdmError>(ts[i]));
                                    assert(keys[i] == any_key(ts[i]));
                                } else {
                                    assert(init[i]->Ok_0 == rs[i]->Ok_0);
                                    assert(init[j]->Ok_0 == rs[j]->Ok_0);
                                }
                            }
                        }
                    },
                }
            },
        }
    }
}

/// The keys of some (key, version) pairs.
pub open spec fn entry_keys(es: Seq<(Seq<char>, Seq<char>)>) -> Seq<Seq<char>> {
    es.map_values(|e: (Seq<char>, Seq<char>)| e.0)
}

/// Updating through one entry changes exactly the first of its targets whose
/// key is `url`, and fails exactly when none of its targets has that key.
proof fn lemma_source_updated(base: Seq<char>, src: SourceView, url: Seq<char>, version: Seq<char>)
    ensures
        spec_source_updated(base, src, url, version) is None <==> !entry_keys(source_entries(base, src)).contains(url),
        spec_source_updated(base, src, url, version) matches Some(s2) ==> exists|j: int|
            0 <= j < source_entries(base, src).len() && #[trigger] source_entries(base, src)[j].0 == url
                && (forall|k: int| 0 <= k < j ==> (#[trigger] source_entries(base, src)[k]).0 != url)
                && source_entries(base, s2) == source_entries(base, src).update(j, (url, version)),
{
    let es = source_entries(base, src);
    match src {
        SourceView::File(f) => {
            if base == url {
                assert(entry_keys(es)[0] == url);
                let s2 = spec_source_updated(base, src, url, version)->0;
                assert(source_entries(base, s2) =~= es.update(0, (url, version)));
                assert(es[0].0 == url);
            } else {
                assert(entry_keys(es) =~= seq![base]);
            }
        },
        SourceView::Files(g) => {
            lemma_first_file_match(base, g.files, url, 0);
            assert(es.len() == g.files.len());
            assert forall|k: int| 0 <= k < es.len() implies #[trigger] es[k].0 == spec_join_target(base, map_file_path(g.files[k])) by {
                assert(files_entries(g)[k] == crate::manifest::source::map_file_entry(g.version, g.files[k]));
            }
            match first_file_match(base, g.files, url, 0) {
                None => {
                    if entry_keys(es).contains(url) {
                        let k = choose|k: int| 0 <= k < entry_keys(es).len() && entry_keys(es)[k] == url;
                        assert(es[k].0 == url);
                    }
                },
                Some(j) => {
                    assert(entry_keys(es)[j] == url);
                    let s2 = spec_source_updated(base, src, url, version)->0;
                    let g2 = spec_files_set_version(g, base, url, version)->0;
                    assert(files_entries(g2) =~= files_entries(g).update(j, (files_entries(g)[j].0, version)));
                    assert(source_entries(base, s2) =~= es.update(j, (url, version)));
                    assert(es[j].0 == url);
                    assert forall|k: int| 0 <= k < j implies (#[trigger] es[k]).0 != url by {
                        assert(spec_join_target(base, map_file_path(g.files[k])) != url);
                    }
                },
            }
        },
    }
}

/// `first_update` takes the first entry from `start` on through which `url` is updated.
proof fn lemma_first_update(m: ManifestView, url: Seq<char>, version: Seq<char>, start: int)
    requires
        0 <= start,
    ensures
        match first_update(m, url, version, start) {
            Some((i, s)) => start <= i < m.keys.len() && spec_source_updated(m.keys[i], m.sources[i], url, version) == Some(s)
                && forall|k: int| start <= k < i ==> #[trigger] spec_source_updated(m.keys[k], m.sources[k], url, version) is None,
            None => forall|k: int| start <= k < m.keys.len() ==> #[trigger] spec_source_updated(m.keys[k], m.sources[k], url, version) is None,
        },
    decreases m.keys.len() - start,
{
    if start < m.keys.len() && spec_source_updated(m.keys[start], m.sources[start], url, version) is None {
        lemma_first_update(m, url, version, start + 1);
    }
}

/// A key is among the targets of the first `n` entries exactly when it is
/// among the targets of one of them.
proof fn lemma_upto_keys(m: ManifestView, n: int, x: Seq<char>)
    requires
        0 <= n <= m.keys.len(),
    ensures
        entry_keys(manifest_entries_upto(m, n)).contains(x) <==> exists|i: int|
            0 <= i < n && #[trigger] entry_keys(source_entries(m.keys[i], m.sources[i])).contains(x),
    decreases n,
{
    if n > 0 {
        lemma_upto_keys(m, n - 1, x);
        let a = manifest_entries_upto(m, n - 1);
        let b = source_entries(m.keys[n - 1], m.sources[n - 1]);
        assert(manifest_entries_upto(m, n) == a + b);
        assert(entry_keys(a + b) =~= entry_keys(a) + entry_keys(b));
        if entry_keys(a + b).contains(x) {
            let k = choose|k: int| 0 <= k < entry_keys(a + b).len() && entry_keys(a + b)[k] == x;
            if k < a.len() {
                assert(entry_keys(a)[k] == x);
                assert(entry_keys(a).contains(x));
            } else {
                assert(entry_keys(b)[k - a.len()] == x);
                assert(entry_keys(source_entries(m.keys[n - 1], m.sources[n - 1])).contains(x));
            }
        }
        if exists|i: int| 0 <= i < n && #[trigger] entry_keys(source_entries(m.keys[i], m.sources[i])).contains(x) {
            let i = choose|i: int| 0 <= i < n && #[trigger] entry_keys(source_entries(m.keys[i], m.sources[i])).contains(x);
            if i < n - 1 {
                let k = choose|k: int| 0 <= k < entry_keys(a).len() && entry_keys(a)[k] == x;
                assert(entry_keys(a + b)[k] == x);
            } else {
                let k = choose|k: int| 0 <= k < entry_keys(b).len() && entry_keys(b)[k] == x;
                assert(entry_keys(a + b)[a.len() + k] == x);
            }
        }
    }
}

/// Replacing entry `i` by one with the same targets but the one at `j` set
/// to `(url, version)` changes the targets of the first `n` entries (`n > i`)
/// at the matching place only.
proof fn lemma_upto_replaced(m: ManifestView, i: int, s: SourceView, j: int, url: Seq<char>, version: Seq<char>, n: int)
    requires
        m.sources.len() == m.keys.len(),
        0 <= i < n <= m.keys.len(),
        0 <= j < source_entries(m.keys[i], m.sources[i]).len(),
        source_entries(m.keys[i], s) == source_entries(m.keys[i], m.sources[i]).update(j, (url, version)),
    ensures
        manifest_entries_upto(ManifestView { keys: m.keys, sources: m.sources.update(i, s) }, n)
            == manifest_entries_upto(m, n).update(manifest_entries_upto(m, i).len() + j, (url, version)),
        manifest_entries_upto(m, i).len() + j < manifest_entries_upto(m, n).len(),
    decreases n,
{
    let m2 = ManifestView { keys: m.keys, sources: m.sources.update(i, s) };
    if n == i + 1 {
        lemma_upto_same(m, m2, i);
        assert(manifest_entries_upto(m2, n) =~= manifest_entries_upto(m, n).update(manifest_entries_upto(m, i).len() + j, (url, version)));
    } else {
        lemma_upto_replaced(m, i, s, j, url, version, n - 1);
        assert(m2.sources[n - 1] == m.sources[n - 1]);
        assert(manifest_entries_upto(m2, n) =~= manifest_entries_upto(m, n).update(manifest_entries_upto(m, i).len() + j, (url, version)));
    }
}

/// Entries before `i` are the same in both views, so are their targets.
proof fn lemma_upto_same(m: ManifestView, m2: ManifestView, n: int)
    requires
        m2.keys == m.keys,
        m.sources.len() == m.keys.len(),
        m2.sources.len() == m.keys.len(),
        0 <= n <= m.keys.len(),
        forall|k: int| 0 <= k < n ==> #[trigger] m2.sources[k] == m.sources[k],
    ensures
        manifest_entries_upto(m2, n) == manifest_entries_upto(m, n),
    decreases n,
{
    if n > 0 {
        lemma_upto_same(m, m2, n - 1);
    }
}

/// Updating a manifest, as its targets show it: it succeeds exactly when
/// some target's key is `url`; then the first such target, in key order,
/// now has `version`, and every other target, the order and the keys stay.
#[verifier::spinoff_prover]
#[verifier::rlimit(60)]
pub proof fn lemma_update_entries(m: ManifestView, url: Seq<char>, version: Seq<char>)
    requires
        m.sources.len() == m.keys.len(),
    ensures
        first_update(m, url, version, 0) is None <==> !entry_keys(manifest_entries(m)).contains(url),
        first_update(m, url, version, 0) matches Some((i, s)) ==> exists|k: int|
            0 <= k < manifest_entries(m).len() && #[trigger] manifest_entries(m)[k].0 == url
                && (forall|k2: int| 0 <= k2 < k ==> (#[trigger] manifest_entries(m)[k2]).0 != url)
                && manifest_entries(ManifestView { keys: m.keys, sources: m.sources.update(i, s) })
                    == manifest_entries(m).update(k, (url, version)),
{
    let n = m.keys.len() as int;
    lemma_first_update(m, url, version, 0);
    lemma_upto_keys(m, n, url);
    match first_update(m, url, version, 0) {
        None => {
            assert forall|i: int| 0 <= i < n implies !#[trigger] entry_keys(source_entries(m.keys[i], m.sources[i])).contains(url) by {
                lemma_source_updated(m.keys[i], m.sources[i], url, version);
            }
        },
        Some((i, s)) => {
            lemma_source_updated(m.keys[i], m.sources[i], url, version);
            let b = source_entries(m.keys[i], m.sources[i]);
            let j = choose|j: int| 0 <= j < b.len() && #[trigger] b[j].0 == url
                && (forall|k: int| 0 <= k < j ==> (#[trigger] b[k]).0 != url)
                && source_entries(m.keys[i], s) == b.update(j, (url, version));
            lemma_upto_replaced(m, i, s, j, url, version, n);
            let a = manifest_entries_upto(m, i);
            let k = a.len() + j;
            lemma_upto_keys(m, i, url);
            assert forall|i2: int| 0 <= i2 < i implies !#[trigger] entry_keys(source_entries(m.keys[i2], m.sources[i2])).contains(url) by {
                lemma_source_updated(m.keys[i2], m.sources[i2], url, version);
            }
            lemma_upto_prefix(m, i + 1, n);
            let all = manifest_entries(m);
            assert(manifest_entries_upto(m, i + 1) == a + b);
            assert forall|k2: int| 0 <= k2 < k implies (#[trigger] all[k2]).0 != url by {
                assert(all[k2] == (a + b)[k2]);
                if k2 < a.len() {
                    assert(entry_keys(a)[k2] == a[k2].0);
                } else {
                    assert(b[k2 - a.len()].0 != url);
                }
            }
            assert(all[k] == (a + b)[k]);
            assert(b[j].0 == url);
        },
    }
}

/// The targets of the first `n` entries begin the targets of the first `n2`.
proof fn lemma_upto_prefix(m: ManifestView, n: int, n2: int)
    requires
        0 <= n <= n2 <= m.keys.len(),
    ensures
        manifest_entries_upto(m, n).len() <= manifest_entries_upto(m, n2).len(),
        forall|k: int| 0 <= k < manifest_entries_upto(m, n).len() ==> #[trigger] manifest_entries_upto(m, n2)[k] == manifest_entries_upto(m, n)[k],
    decreases n2 - n,
{
    if n < n2 {
        lemma_upto_prefix(m, n, n2 - 1);
    }
}

} // verus!
