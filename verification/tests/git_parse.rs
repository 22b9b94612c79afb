use vdm::git::parse::VdmGitSource;
use vdm::manifest::source::{VdmManifestSource, VdmManifestSourceFiles, VdmManifestSourceMapFile};
use vdm::manifest::target::{VdmManifestSourceVersion, VdmManifestTargetPath, VdmManifestTargetUrl};
use vdm::manifest::VdmManifest;
use vdm::source::input::{VdmAnyTarget, VdmSourceInput};
use vdm::target::VdmTarget;

#[test]
fn parses_repository_urls_and_round_trips_manifest_entries() {
    for repository in [
        "https://gitlab.com/group/subgroup/repo.git",
        "ssh://git@example.com:2222/team/repo.git",
        "ssh://git@[::1]:2222/team/repo.git",
        "https://example.com:8443/team/repo.git",
        "git://example.com/repo",
        "file:///tmp/repo",
    ] {
        for (path, version) in [
            ("src/**/*.rs", "feature/branch"),
            ("@scope/file.ts", "v1.0"),
            ("file.txt", "HEAD"),
            ("tests", "master"),
            ("tests/", "HEAD"),
        ] {
            let key = VdmManifestTargetUrl::new(&format!("{repository}:{path}"));
            let target =
                VdmSourceInput::parse_manifest_target(&key, &VdmManifestSourceVersion::new(version)).unwrap();
            assert_eq!(
                target.key().as_str(),
                format!("git:{repository}:{}", path.trim_end_matches('/'))
            );
            assert_eq!(target.version().as_str(), version);
            let git = match &target {
                VdmAnyTarget::Git(git) => git,
                VdmAnyTarget::Http(_) => panic!("expected a Git target"),
            };
            assert_eq!(git.repository_url(), repository);
            assert_eq!(git.path(), path.trim_end_matches('/'));
            assert!(target.vendor_path().starts_with("@git"));
        }
        let target = VdmSourceInput::parse_target(&format!("{repository}:file.txt")).unwrap();
        assert_eq!(target.version().as_str(), "HEAD");
    }
}

#[test]
fn parses_savannah_targets() {
    for (suffix, path, version) in [
        ("tests/", "tests", "HEAD"),
        ("tests", "tests", "HEAD"),
        ("tests/**/*.sh", "tests/**/*.sh", "HEAD"),
        ("tests@master", "tests", "master"),
    ] {
        let input = format!("git://git.git.savannah.gnu.org/bash.git:{suffix}");
        let parsed = VdmSourceInput::parse_target(&input).unwrap();
        let target = match &parsed {
            VdmAnyTarget::Git(git) => git,
            VdmAnyTarget::Http(_) => panic!("expected a Git target"),
        };
        assert_eq!(target.repository_url(), "git://git.git.savannah.gnu.org/bash.git");
        assert_eq!(target.path(), path);
        assert_eq!(target.version().as_str(), version);
    }
}

#[test]
fn expands_grouped_git_manifest_sources() {
    for base in [
        "https://example.com/team/repo.git",
        "https://example.com/team/repo.git:",
        "https://example.com/team/repo.git:src",
    ] {
        let manifest = VdmManifest::from_entries(vec![(
            VdmManifestTargetUrl::new(base),
            VdmManifestSource::Files(VdmManifestSourceFiles::new(
                VdmManifestSourceVersion::new("main"),
                vec![VdmManifestSourceMapFile::Path(VdmManifestTargetPath::new("file.ts"))],
            )),
        )])
        .unwrap();
        let targets = manifest.targets().unwrap();
        let (_, first) = targets.entry(0);
        let target = match first {
            VdmAnyTarget::Git(git) => git,
            VdmAnyTarget::Http(_) => panic!("expected a Git target"),
        };
        assert_eq!(target.repository_url(), "https://example.com/team/repo.git");
        assert_eq!(target.path(), if base.ends_with("src") { "src/file.ts" } else { "file.ts" });
        assert_eq!(target.version().as_str(), "main");
    }
}

#[test]
fn rejects_invalid_git_targets() {
    for input in [
        "git:invalid",
        "git:https://example.com/",
        "https://example.com/repo.git:../secret",
        "https://example.com/repo.git:file@",
        "https://example.com/repo.git:file@bad..ref",
        "https://example.com/repo.git:[broken",
        "ftp://example.com/repo.git:file",
    ] {
        assert!(VdmSourceInput::parse_target(input).is_err(), "{input}");
    }
}

#[test]
fn normalized_repository_paths_are_plain_and_stable() {
    for input in ["a//b/./c/", "./x/../y", "dir/../../z", "", "a/*.ts/"] {
        match VdmGitSource::normalize_path(input) {
            Ok(path) => {
                assert!(path.is_empty() || path.split('/').all(|p| !p.is_empty() && p != "." && p != ".."), "{path}");
                assert_eq!(VdmGitSource::normalize_path(&path).unwrap(), path);
            }
            Err(e) => {
                assert_eq!(input, "dir/../../z");
                assert!(matches!(e, vdm::error::VdmError::PathEscapesRepository));
            }
        }
    }
}
