use vdm::github::parse::VdmGithubSource;
use vdm::manifest::target::{VdmManifestSourceVersion, VdmManifestTargetUrl};
use vdm::source::github::VdmSourceGitHub;
use vdm::source::input::VdmSource;
use vdm::target::VdmTarget;

#[test]
fn mod_parses_prefixed_github_target() {
    let target = VdmSourceGitHub.parse("gh:js-fns/js-fns/vitest.config.ts@main").unwrap().unwrap();
    assert!(target.key() == &VdmManifestTargetUrl::new("gh:js-fns/js-fns/vitest.config.ts"));
    assert!(target.version() == &VdmManifestSourceVersion::new("main"));
    assert_eq!(target.vendor_path(), "@js-fns/js-fns/vitest.config.ts");
    assert!(VdmSourceGitHub.parse("js-fns/js-fns/file@main").unwrap().is_none());
    assert!(VdmSourceGitHub.parse("gh:js-fns/js-fns/../secret@main").is_err());
}

#[test]
fn parse_parses_prefixed_github_target() {
    let target = VdmGithubSource.parse("gh:js-fns/js-fns:vitest.config.ts@main").unwrap().unwrap();
    assert!(target.key() == &VdmManifestTargetUrl::new("gh:js-fns/js-fns:vitest.config.ts"));
    assert!(target.version() == &VdmManifestSourceVersion::new("main"));
    assert_eq!(target.vendor_path(), "@gh/js-fns/js-fns/vitest.config.ts");
    assert!(VdmGithubSource.parse("js-fns/js-fns/file@main").unwrap().is_none());
    assert!(VdmGithubSource.parse("gh:js-fns/js-fns:../secret@main").is_err());
}

#[test]
fn parses_colon_separated_github_targets() {
    for suffix in ["", "@main"] {
        let target = VdmGithubSource
            .parse(&format!("gh:kossnocorp/js-fns:pkgs/dev/src/config/tsconfig.json{suffix}"))
            .unwrap()
            .unwrap();
        assert_eq!(target.key().as_str(), "gh:kossnocorp/js-fns:pkgs/dev/src/config/tsconfig.json");
        assert_eq!(target.version().as_str(), if suffix.is_empty() { "HEAD" } else { "main" });
    }
}

fn grammar(input: &str) -> Option<(String, String, String, Option<String>)> {
    VdmGithubSource::parse(input)
}

fn parts(owner: &str, repo: &str, path: &str, version: Option<&str>) -> Option<(String, String, String, Option<String>)> {
    Some((owner.to_owned(), repo.to_owned(), path.to_owned(), version.map(str::to_owned)))
}

#[test]
fn parses_github_paths_and_optional_refs() {
    let glob = VdmGithubSource.parse("gh:omacom/omarchy:**/*.sh").unwrap().unwrap();
    assert_eq!(glob.key().as_str(), "gh:omacom/omarchy:**/*.sh");
    assert_eq!(glob.version().as_str(), "HEAD");
    assert!(VdmGithubSource.parse("gh:owner/repo:[broken").is_err());
    assert_eq!(grammar("gh:owner/repo:path/file"), parts("owner", "repo", "path/file", None));
    assert_eq!(
        grammar("gh:owner/repo:@scope/file@feature/branch"),
        parts("owner", "repo", "@scope/file", Some("feature/branch"))
    );
    for input in ["gh:/repo/file", "gh:owner//file", "gh:owner/repo/", "gh:owner/repo/file"] {
        assert!(grammar(input).is_none(), "{input}");
    }
}
