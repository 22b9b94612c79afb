use vdm::error::VdmError;
use vdm::manifest::source::{
    VdmManifestSource, VdmManifestSourceFile, VdmManifestSourceFileConfig, VdmManifestSourceFiles,
    VdmManifestSourceMapFile, VdmManifestSourceMapFileConfig,
};
use vdm::manifest::target::{VdmManifestSourceVersion, VdmManifestTargetPath, VdmManifestTargetUrl};
use vdm::manifest::VdmManifest;
use vdm::target::VdmTarget;

fn url(s: &str) -> VdmManifestTargetUrl {
    VdmManifestTargetUrl::new(s)
}

fn version(s: &str) -> VdmManifestSourceVersion {
    VdmManifestSourceVersion::new(s)
}

fn direct(v: &str) -> VdmManifestSource {
    VdmManifestSource::File(VdmManifestSourceFile::Version(version(v)))
}

fn direct_table(v: &str) -> VdmManifestSource {
    VdmManifestSource::File(VdmManifestSourceFile::Config(VdmManifestSourceFileConfig::new(version(v))))
}

fn path(p: &str) -> VdmManifestSourceMapFile {
    VdmManifestSourceMapFile::Path(VdmManifestTargetPath::new(p))
}

fn path_at(p: &str, v: &str) -> VdmManifestSourceMapFile {
    VdmManifestSourceMapFile::Config(VdmManifestSourceMapFileConfig::new(
        VdmManifestTargetPath::new(p),
        VdmManifestSourceFileConfig::new(version(v)),
    ))
}

fn group(v: &str, files: Vec<VdmManifestSourceMapFile>) -> VdmManifestSource {
    VdmManifestSource::Files(VdmManifestSourceFiles::new(version(v), files))
}

#[test]
fn resolves_all_manifest_source_forms() {
    let manifest = VdmManifest::from_entries(vec![
        (url("gh:kossnocorp/dev:README.md"), direct("main")),
        (url("gh:kossnocorp/dev:LICENSE"), direct_table("v1")),
        (url("gh:kossnocorp/dev"), group("v2", vec![path("mise.toml"), path_at("package.json", "v3")])),
    ])
    .unwrap();

    assert!(matches!(manifest.get(&url("gh:kossnocorp/dev")), Some(VdmManifestSource::Files(_))));

    let targets = manifest.targets().unwrap();
    assert_eq!(targets.len(), 4);
    assert!(targets.get(&url("gh:kossnocorp/dev:README.md")).unwrap().version() == &version("main"));
    assert!(targets.get(&url("gh:kossnocorp/dev:LICENSE")).unwrap().version() == &version("v1"));
    assert!(targets.get(&url("gh:kossnocorp/dev:mise.toml")).unwrap().version() == &version("v2"));
    assert!(targets.get(&url("gh:kossnocorp/dev:package.json")).unwrap().version() == &version("v3"));
}

#[test]
fn rejects_duplicate_expanded_targets() {
    let manifest = VdmManifest::from_entries(vec![
        (url("gh:kossnocorp/dev:mise.toml"), direct("main")),
        (url("gh:kossnocorp/dev"), group("main", vec![path("mise.toml")])),
    ])
    .unwrap();

    assert!(matches!(manifest.targets(), Err(VdmError::DuplicateManifestTarget(_))));
}

#[test]
fn rejects_unsafe_grouped_paths() {
    let manifest =
        VdmManifest::from_entries(vec![(url("gh:kossnocorp/dev"), group("main", vec![path("../secret")]))]).unwrap();

    assert!(matches!(manifest.targets(), Err(VdmError::PathEscapesRepository)));
}

#[test]
fn updates_direct_and_grouped_target_versions() {
    let mut manifest = VdmManifest::from_entries(vec![
        (url("gh:kossnocorp/dev:README.md"), direct("old")),
        (url("gh:kossnocorp/dev"), group("old", vec![path("mise.toml"), path_at("package.json", "older")])),
    ])
    .unwrap();
    let main = version("main");
    manifest.update(&url("gh:kossnocorp/dev:README.md"), &main).unwrap();
    manifest.update(&url("gh:kossnocorp/dev:mise.toml"), &main).unwrap();
    manifest.update(&url("gh:kossnocorp/dev:package.json"), &main).unwrap();

    let targets = manifest.targets().unwrap();
    for i in 0..targets.len() {
        let (_, target) = targets.entry(i);
        assert!(target.version() == &main);
    }
}
