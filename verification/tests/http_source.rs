use vdm::http::parse::VdmHttpSource;
use vdm::target::VdmTarget;

fn split(input: &str) -> (String, Option<String>) {
    let chars = input.chars().collect::<Vec<_>>();
    let (url, version) = VdmHttpSource::parse(&chars);
    (url.into_iter().collect(), version.map(|v| v.into_iter().collect()))
}

#[test]
fn recognizes_only_complete_trailing_http_hashes() {
    let url = "https://cdn.jsdelivr.net/gh/devicons/devicon@latest/icons/github/github-given.svg";
    let hash = format!("sha256:{}", "aB09".repeat(16));
    let pinned = format!("{url}@{hash}");
    assert_eq!(split(&pinned), (url.to_owned(), Some(hash.clone())));
    for suffix in [
        String::new(),
        "@latest".into(),
        "@sha256:".into(),
        format!("@sha256:{}", "a".repeat(63)),
        format!("@sha256:{}", "a".repeat(65)),
        format!("@sha256:{}g", "a".repeat(63)),
        format!("@sha512:{}", "a".repeat(64)),
        format!("@{hash}/file"),
        format!("@{hash}?raw=1"),
    ] {
        let input = format!("{url}{suffix}");
        assert_eq!(split(&input), (input.clone(), None));
    }
    let url = "https://user@example.com/@scope/pkg@latest/file?value=@foo#@bar";
    let pinned = format!("{url}@{hash}");
    assert_eq!(split(&pinned), (url.to_owned(), Some(hash.clone())));
}

#[test]
fn parses_direct_http_urls_only() {
    let target = VdmHttpSource.parse_target("https://example.com/assets/file.js?raw=1").unwrap().unwrap();
    assert_eq!(target.key().as_str(), "http:https://example.com/assets/file.js?raw=1");
    assert_eq!(target.vendor_path(), "@http/example.com/assets/file.js");
    assert!(VdmHttpSource.parse_target("gh:owner/repo/file@main").unwrap().is_none());
    assert!(VdmHttpSource.parse_target("https://example.com/").is_err());
}
