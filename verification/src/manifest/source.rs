//! Manifest entries: a single target with its version, or a grouped source
//! listing files of one base.
use vstd::prelude::*;

use crate::manifest::target::{spec_join_target, VdmManifestSourceVersion, VdmManifestTargetPath, VdmManifestTargetUrl};
use crate::text::eq_chars;

verus! {

/// One manifest entry.
#[derive(Debug)]
pub enum VdmManifestSource {
    /// A grouped source: several files of one base.
    Files(VdmManifestSourceFiles),
    /// A single target.
    File(VdmManifestSourceFile),
}

/// The version of a single target, written bare or as a table.
#[derive(Debug)]
pub enum VdmManifestSourceFile {
    Version(VdmManifestSourceVersion),
    Config(VdmManifestSourceFileConfig),
}

/// A grouped source: a default version and the files it lists.
#[derive(Debug)]
pub struct VdmManifestSourceFiles {
    version: VdmManifestSourceVersion,
    files: Vec<VdmManifestSourceMapFile>,
}

/// A file of a grouped source: a bare path, or a path with its own version.
#[derive(Debug)]
pub enum VdmManifestSourceMapFile {
    Path(VdmManifestTargetPath),
    Config(VdmManifestSourceMapFileConfig),
}

/// A file of a grouped source with its own version.
#[derive(Debug)]
pub struct VdmManifestSourceMapFileConfig {
    path: VdmManifestTargetPath,
    common: VdmManifestSourceFileConfig,
}

/// The settings of one file.
#[derive(Debug)]
pub struct VdmManifestSourceFileConfig {
    version: VdmManifestSourceVersion,
}

/// The mathematical form of a single target's version.
pub enum FileView {
    Version(Seq<char>),
    Config(Seq<char>),
}

/// The mathematical form of a file of a grouped source.
pub enum MapFileView {
    Path(Seq<char>),
    Config(Seq<char>, Seq<char>),
}

/// The mathematical form of a grouped source.
pub struct FilesView {
    pub version: Seq<char>,
    pub files: Seq<MapFileView>,
}

/// The mathematical form of a manifest entry.
pub enum SourceView {
    Files(FilesView),
    File(FileView),
}

impl View for VdmManifestSourceFileConfig {
    type V = Seq<char>;

    closed spec fn view(&self) -> Seq<char> {
        self.version@
    }
}

impl View for VdmManifestSourceMapFileConfig {
    type V = (Seq<char>, Seq<char>);

    closed spec fn view(&self) -> (Seq<char>, Seq<char>) {
        (self.path@, self.common@)
    }
}

impl View for VdmManifestSourceFile {
    type V = FileView;

    open spec fn view(&self) -> FileView {
        match self {
            VdmManifestSourceFile::Version(v) => FileView::Version(v@),
            VdmManifestSourceFile::Config(c) => FileView::Config(c@),
        }
    }
}

impl View for VdmManifestSourceMapFile {
    type V = MapFileView;

    open spec fn view(&self) -> MapFileView {
        match self {
            VdmManifestSourceMapFile::Path(p) => MapFileView::Path(p@),
            VdmManifestSourceMapFile::Config(c) => MapFileView::Config(c@.0, c@.1),
        }
    }
}

impl View for VdmManifestSourceFiles {
    type V = FilesView;

    closed spec fn view(&self) -> FilesView {
        FilesView { version: self.version@, files: self.files@.map_values(|f: VdmManifestSourceMapFile| f@) }
    }
}

impl View for VdmManifestSource {
    type V = SourceView;

    open spec fn view(&self) -> SourceView {
        match self {
            VdmManifestSource::Files(f) => SourceView::Files(f@),
            VdmManifestSource::File(f) => SourceView::File(f@),
        }
    }
}

/// The version of a single target.
pub open spec fn file_version(f: FileView) -> Seq<char> {
    match f {
        FileView::Version(v) => v,
        FileView::Config(v) => v,
    }
}

/// The same single target at another version, written in the same form.
pub open spec fn file_with_version(f: FileView, v: Seq<char>) -> FileView {
    match f {
        FileView::Version(_) => FileView::Version(v),
        FileView::Config(_) => FileView::Config(v),
    }
}

/// The path of a file of a grouped source.
pub open spec fn map_file_path(f: MapFileView) -> Seq<char> {
    match f {
        MapFileView::Path(p) => p,
        MapFileView::Config(p, _) => p,
    }
}

/// The path and version of a file of a grouped source: its own version, or the group's.
pub open spec fn map_file_entry(group_version: Seq<char>, f: MapFileView) -> (Seq<char>, Seq<char>) {
    match f {
        MapFileView::Path(p) => (p, group_version),
        MapFileView::Config(p, v) => (p, v),
    }
}

/// The paths and versions that a grouped source lists, in order.
pub open spec fn files_entries(g: FilesView) -> Seq<(Seq<char>, Seq<char>)> {
    g.files.map_values(|f: MapFileView| map_file_entry(g.version, f))
}

/// The index of the first listed file whose joined key is `target`, from `start` on.
pub open spec fn first_file_match(base: Seq<char>, files: Seq<MapFileView>, target: Seq<char>, start: int) -> Option<int>
    decreases files.len() - start,
{
    if start < 0 || start >= files.len() {
        None
    } else if spec_join_target(base, map_file_path(files[start])) == target {
        Some(start)
    } else {
        first_file_match(base, files, target, start + 1)
    }
}

/// The grouped source with the first file whose key is `target` set to
/// `version` (a bare path becomes a table); `None` when no file has that key.
pub open spec fn spec_files_set_version(g: FilesView, base: Seq<char>, target: Seq<char>, version: Seq<char>) -> Option<FilesView> {
    match first_file_match(base, g.files, target, 0) {
        None => None,
        Some(j) => Some(FilesView {
            version: g.version,
            files: g.files.update(j, MapFileView::Config(map_file_path(g.files[j]), version)),
        }),
    }
}

/// A file listing bare version strings.
impl VdmManifestSourceFileConfig {
    pub fn new(version: VdmManifestSourceVersion) -> (r: Self)
        ensures
            r@ == version@,
    {
        Self { version }
    }

    pub fn version(&self) -> (r: &VdmManifestSourceVersion)
        ensures
            r@ == self@,
    {
        &self.version
    }
}

impl VdmManifestSourceMapFileConfig {
    pub fn new(path: VdmManifestTargetPath, common: VdmManifestSourceFileConfig) -> (r: Self)
        ensures
            r@ == (path@, common@),
    {
        Self { path, common }
    }

    pub fn path(&self) -> (r: &VdmManifestTargetPath)
        ensures
            r@ == self@.0,
    {
        &self.path
    }

    pub fn common(&self) -> (r: &VdmManifestSourceFileConfig)
        ensures
            r@ == self@.1,
    {
        &self.common
    }
}

impl VdmManifestSourceFile {
    /// The version of the target.
    pub fn version(&self) -> (r: &VdmManifestSourceVersion)
        ensures
            r@ == file_version(self@),
    {
        match self {
            Self::Version(version) => version,
            Self::Config(config) => &config.version,
        }
    }

    /// Sets the version, keeping the form.
    pub fn set_version(&mut self, version: &VdmManifestSourceVersion)
        ensures
            final(self)@ == file_with_version(old(self)@, version@),
    {
        match self {
            Self::Version(current) => *current = version.clone(),
            Self::Config(config) => config.version = version.clone(),
        }
    }
}

impl VdmManifestSourceFiles {
    pub fn new(version: VdmManifestSourceVersion, files: Vec<VdmManifestSourceMapFile>) -> (r: Self)
        ensures
            r@ == (FilesView { version: version@, files: files@.map_values(|f: VdmManifestSourceMapFile| f@) }),
    {
        Self { version, files }
    }

    /// The default version of the group.
    pub fn version(&self) -> (r: &VdmManifestSourceVersion)
        ensures
            r@ == self@.version,
    {
        &self.version
    }

    /// The files of the group.
    pub fn files(&self) -> (r: &Vec<VdmManifestSourceMapFile>)
        ensures
            r@.map_values(|f: VdmManifestSourceMapFile| f@) == self@.files,
    {
        &self.files
    }

    /// The path and version of each listed file, in order.
    pub fn iter_versions(&self) -> (r: Vec<(VdmManifestTargetPath, VdmManifestSourceVersion)>)
        ensures
            r@.map_values(|e: (VdmManifestTargetPath, VdmManifestSourceVersion)| (e.0@, e.1@)) == files_entries(self@),
    {
        let ghost fs = self.files@.map_values(|f: VdmManifestSourceMapFile| f@);
        let mut r: Vec<(VdmManifestTargetPath, VdmManifestSourceVersion)> = Vec::new();
        let mut i: usize = 0;
        while i < self.files.len()
            invariant
                i <= self.files@.len(),
                fs == self.files@.map_values(|f: VdmManifestSourceMapFile| f@),
                fs == self@.files,
                r@.map_values(|e: (VdmManifestTargetPath, VdmManifestSourceVersion)| (e.0@, e.1@))
                    =~= fs.take(i as int).map_values(|f: MapFileView| map_file_entry(self@.version, f)),
            decreases self.files@.len() - i,
        {
            let entry = match &self.files[i] {
                VdmManifestSourceMapFile::Path(path) => (path.clone(), self.version.clone()),
                VdmManifestSourceMapFile::Config(config) => (config.path.clone(), config.common.version.clone()),
            };
            assert((entry.0@, entry.1@) == map_file_entry(self@.version, fs[i as int]));
            r.push(entry);
            assert(r@.map_values(|e: (VdmManifestTargetPath, VdmManifestSourceVersion)| (e.0@, e.1@)) =~= fs.take(i as int).map_values(|f: MapFileView| map_file_entry(self@.version, f)).push(map_file_entry(self@.version, fs[i as int])));
            assert(fs.take(i + 1) =~= fs.take(i as int).push(fs[i as int]));
            i += 1;
        }
        assert(fs.take(fs.len() as int) =~= fs);
        r
    }

    /// Sets the version of the first listed file whose key, joined to `base`,
    /// is `target`; tells whether there was one.
    pub fn set_version(
        &mut self,
        base: &VdmManifestTargetUrl,
        target: &VdmManifestTargetUrl,
        version: &VdmManifestSourceVersion,
    ) -> (r: bool)
        ensures
            match spec_files_set_version(old(self)@, base@, target@, version@) {
                Some(g) => r && final(self)@ == g,
                None => !r && final(self)@ == old(self)@,
            },
    {
        let ghost fs = self.files@.map_values(|f: VdmManifestSourceMapFile| f@);
        let t = target.to_chars();
        let mut i: usize = 0;
        while i < self.files.len()
            invariant
                i <= self.files@.len(),
                fs == self.files@.map_values(|f: VdmManifestSourceMapFile| f@),
                fs == old(self)@.files,
                self@ == old(self)@,
                t@ == target@,
                first_file_match(base@, fs, target@, 0) == first_file_match(base@, fs, target@, i as int),
            decreases self.files@.len() - i,
        {
            let path = match &self.files[i] {
                VdmManifestSourceMapFile::Path(path) => path.clone(),
                VdmManifestSourceMapFile::Config(config) => config.path.clone(),
            };
            assert(path@ == map_file_path(fs[i as int]));
            let joined = base.join(&path);
            if eq_chars(joined.to_chars().as_slice(), t.as_slice()) {
                let updated = VdmManifestSourceMapFile::Config(VdmManifestSourceMapFileConfig {
                    path,
                    common: VdmManifestSourceFileConfig { version: version.clone() },
                });
                self.files.set(i, updated);
                proof {
                    assert(self@.files =~= fs.update(i as int, MapFileView::Config(map_file_path(fs[i as int]), version@)));
                }
                return true;
            }
            i += 1;
        }
        false
    }
}

impl Clone for VdmManifestSourceFileConfig {
    fn clone(&self) -> (r: Self)
        ensures
            r@ == self@,
    {
        Self { version: self.version.clone() }
    }
}

impl Clone for VdmManifestSourceMapFileConfig {
    fn clone(&self) -> (r: Self)
        ensures
            r@ == self@,
    {
        Self { path: self.path.clone(), common: self.common.clone() }
    }
}

impl Clone for VdmManifestSourceMapFile {
    fn clone(&self) -> (r: Self)
        ensures
            r@ == self@,
    {
        match self {
            Self::Path(p) => Self::Path(p.clone()),
            Self::Config(c) => Self::Config(c.clone()),
        }
    }
}

impl Clone for VdmManifestSourceFile {
    fn clone(&self) -> (r: Self)
        ensures
            r@ == self@,
    {
        match self {
            Self::Version(v) => Self::Version(v.clone()),
            Self::Config(c) => Self::Config(c.clone()),
        }
    }
}

impl Clone for VdmManifestSourceFiles {
    fn clone(&self) -> (r: Self)
        ensures
            r@ == self@,
    {
        let mut files: Vec<VdmManifestSourceMapFile> = Vec::new();
        let mut i: usize = 0;
        while i < self.files.len()
            invariant
                i <= self.files@.len(),
                files@.map_values(|f: VdmManifestSourceMapFile| f@)
                    =~= self.files@.take(i as int).map_values(|f: VdmManifestSourceMapFile| f@),
            decreases self.files@.len() - i,
        {
            let f = self.files[i].clone();
            assert(f@ == self.files@[i as int]@);
            files.push(f);
            assert(files@.map_values(|f: VdmManifestSourceMapFile| f@) =~= self.files@.take(i as int).map_values(|f: VdmManifestSourceMapFile| f@).push(self.files@[i as int]@));
            assert(self.files@.take(i + 1) =~= self.files@.take(i as int).push(self.files@[i as int]));
            i += 1;
        }
        assert(self.files@.take(self.files@.len() as int) =~= self.files@);
        Self { version: self.version.clone(), files }
    }
}

impl Clone for VdmManifestSource {
    fn clone(&self) -> (r: Self)
        ensures
            r@ == self@,
    {
        match self {
            Self::Files(f) => Self::Files(f.clone()),
            Self::File(f) => Self::File(f.clone()),
        }
    }
}

/// `first_file_match` finds the first listed file from `start` on whose key is `target`.
pub proof fn lemma_first_file_match(base: Seq<char>, files: Seq<MapFileView>, target: Seq<char>, start: int)
    requires
        0 <= start,
    ensures
        match first_file_match(base, files, target, start) {
            Some(j) => start <= j < files.len() && spec_join_target(base, map_file_path(files[j])) == target
                && forall|k: int| start <= k < j ==> spec_join_target(base, map_file_path(#[trigger] files[k])) != target,
            None => forall|k: int| start <= k < files.len() ==> spec_join_target(base, map_file_path(#[trigger] files[k])) != target,
        },
    decreases files.len() - start,
{
    if start < files.len() && spec_join_target(base, map_file_path(files[start])) != target {
        lemma_first_file_match(base, files, target, start + 1);
    }
}

/// Setting the version of `target` in a grouped source, as its listed paths
/// and versions show it: it succeeds exactly when some listed file's key is
/// `target`; then the first such file now pairs with `version`, and every
/// other file, the order and the group's version stay as they were.
pub proof fn lemma_set_version_entries(g: FilesView, base: Seq<char>, target: Seq<char>, version: Seq<char>)
    ensures
        spec_files_set_version(g, base, target, version) is Some <==> exists|j: int|
            0 <= j < g.files.len() && spec_join_target(base, map_file_path(#[trigger] g.files[j])) == target,
        spec_files_set_version(g, base, target, version) matches Some(g2) ==> g2.version == g.version && exists|j: int|
            0 <= j < g.files.len() && spec_join_target(base, map_file_path(g.files[j])) == target
                && (forall|k: int| 0 <= k < j ==> spec_join_target(base, map_file_path(#[trigger] g.files[k])) != target)
                && #[trigger] files_entries(g2) == files_entries(g).update(j, (files_entries(g)[j].0, version)),
{
    lemma_first_file_match(base, g.files, target, 0);
    match first_file_match(base, g.files, target, 0) {
        None => {},
        Some(j) => {
            let g2 = spec_files_set_version(g, base, target, version)->0;
            assert(files_entries(g2) =~= files_entries(g).update(j, (files_entries(g)[j].0, version)));
        },
    }
}

} // verus!
