use vdm::cli::{VdmCli, VdmCliCmd};
use vdm::dirs::VdmDirs;
use vdm::error::VdmError;
use vdm::git::cache::{
    blob_batches, default_branch_of_listing, fetch_refspec, ref_names_of_listing, revision_ref, select_remote_ref,
    target_tree_paths, VdmGitCache, BLOB_BATCH,
};
use vdm::github::cache::{github_fetch_url, VdmGitHubCache};
use vdm::graph::{classify_resolution, file_name, http_dependency, is_javascript_path, VdmGraphWalk};
use vdm::hashing::content_hash;
use vdm::lock::file::{same_lock_file, VdmLockFile};
use vdm::lock::{insert_file, LockDocument, LockEntry, VdmLock};
use vdm::manifest::source::{VdmManifestSource, VdmManifestSourceFile, VdmManifestSourceFiles, VdmManifestSourceMapFile};
use vdm::manifest::target::{VdmManifestSourceVersion, VdmManifestTargetPath, VdmManifestTargetUrl};
use vdm::manifest::VdmManifest;
use vdm::map::UrlMap;
use vdm::path::normalize_components;
use vdm::paths::VdmPaths;
use vdm::rust::{inclusion_path, merge_dependencies, RustResolver};
use vdm::sort::{sort_strings, sorted_unique_strings};
use vdm::source::file::VdmSourceFile;
use vdm::source::input::{VdmAnyTarget, VdmSourceInput};
use vdm::state::{VdmInitializeStep, VdmLockStep, VdmProjectRead, VdmState, VdmStateErrored, VdmStateInitializing};
use vdm::target::VdmTarget;
use vdm::text::lines_exec;
use vdm::vendor::{graph_version, lock_complete, reachable, record_glob, stale_keys};

fn url(s: &str) -> VdmManifestTargetUrl {
    VdmManifestTargetUrl::new(s)
}

fn version(s: &str) -> VdmManifestSourceVersion {
    VdmManifestSourceVersion::new(s)
}

fn strings(v: &[&str]) -> Vec<String> {
    v.iter().map(|s| s.to_string()).collect()
}

fn git(input: &str) -> vdm::git::target::VdmGitTarget {
    match VdmSourceInput::parse_target(input).unwrap() {
        VdmAnyTarget::Git(target) => target,
        VdmAnyTarget::Http(_) => panic!("expected a Git target"),
    }
}

fn paths() -> VdmPaths {
    VdmPaths { root: "/project".into(), manifest: "/project/vdm.toml".into(), lock: "/project/vdm.lock".into() }
}

fn lock_file(version: &str, path: &str, deps: &[&str]) -> VdmLockFile {
    VdmLockFile {
        direct: true,
        version: VdmManifestSourceVersion::new(version),
        revision: "rev".into(),
        hash: "sha256:00".into(),
        source: "https://example.com".into(),
        path: path.into(),
        dependencies: deps.iter().map(|d| url(d)).collect(),
    }
}

#[test]
fn content_hash_is_the_sha256_hex_of_the_bytes() {
    let hash: String = content_hash(b"hello").into_iter().collect();
    assert_eq!(hash, "sha256:2cf24dba5fb0a30e26e83b2ac5b9e29e1b161e5c1fa7425e73043362938b9824");
    let empty: String = content_hash(b"").into_iter().collect();
    assert_eq!(empty.len(), 71);
    assert!(empty.starts_with("sha256:e3b0c442"));
}

#[test]
fn pinned_http_targets_check_their_content() {
    let target = match VdmSourceInput::parse_target("https://example.com/file.txt").unwrap() {
        VdmAnyTarget::Http(target) => target,
        VdmAnyTarget::Git(_) => panic!("expected an HTTP target"),
    };
    assert!(target.check_content(b"anything").is_ok());
    let pinned = target.with_content_version(b"hello");
    assert_eq!(pinned.version().as_str(), "sha256:2cf24dba5fb0a30e26e83b2ac5b9e29e1b161e5c1fa7425e73043362938b9824");
    assert!(pinned.check_content(b"hello").is_ok());
    assert!(matches!(pinned.check_content(b"other"), Err(VdmError::HttpContentHashMismatch(_, _, _))));
}

#[test]
fn http_urls_are_normalized_by_the_url_parser() {
    let target = VdmSourceInput::parse_target("https://EXAMPLE.com/a/./b.js").unwrap();
    assert_eq!(target.key().as_str(), "http:https://example.com/a/b.js");
    match VdmSourceInput::parse_target("HTTPS://example.com/a.js") {
        Err(e @ VdmError::UnsupportedSource(_)) => assert_eq!(
            e.message(),
            "Unsupported source \"HTTPS://example.com/a.js\"; expected gh:owner/repo:path[@ref], <repository-url>:path[@ref], or an HTTP URL"
        ),
        other => panic!("expected an unsupported source, got {other:?}"),
    }
}

#[test]
fn refuses_malformed_inputs_with_the_matching_error() {
    let cases: Vec<(&str, fn(&VdmError) -> bool)> = vec![
        ("git:invalid", |e| matches!(e, VdmError::InvalidGitRepositoryUrl)),
        ("git:ftp://example.com/repo.git", |e| matches!(e, VdmError::UnsupportedGitScheme)),
        ("git:https://example.com/", |e| matches!(e, VdmError::GitUrlWithoutRepositoryPath)),
        ("https://example.com/repo.git:../secret", |e| matches!(e, VdmError::PathEscapesRepository)),
        ("https://example.com/repo.git:file@bad..ref", |e| matches!(e, VdmError::InvalidVersion)),
        ("https://example.com/repo.git:[broken", |e| {
            matches!(e, VdmError::InvalidGlob(_)) && e.message() == "Invalid Git glob \"[broken\""
        }),
        ("gh:owner", |e| {
            matches!(e, VdmError::InvalidGitHubTarget(_))
                && e.message() == "Invalid GitHub target \"gh:owner\"; expected gh:owner/repo:path[@version]"
        }),
        ("gh:owner/repo:file@", |e| matches!(e, VdmError::EmptyGitHubVersion)),
        ("gh:owner/.git", |e| matches!(e, VdmError::InvalidGitHubRepository)),
        ("https://example.com/", |e| matches!(e, VdmError::HttpUrlWithoutFile)),
        ("js-fns/js-fns/file.js@main", |e| matches!(e, VdmError::UnsupportedSource(_))),
    ];
    for (input, expected) in cases {
        let error = VdmSourceInput::parse_target(input).err().unwrap();
        assert!(expected(&error), "{input}: {error:?}");
    }
    assert!(VdmSourceInput::try_parse_target("gh:owner/repo:file@ma\0in").is_none());
    assert!(VdmSourceInput::try_parse_target("gh:owner/repo:file@main").unwrap().is_ok());
}

#[test]
fn manifest_add_update_and_lookup() {
    let mut manifest = VdmManifest::new();
    manifest.add(&url("gh:owner/repo:b.txt"), &version("v1"));
    manifest.add(&url("gh:owner/repo:a.txt"), &version("v1"));
    assert_eq!(manifest.len(), 2);
    assert_eq!(manifest.entry(0).0.as_str(), "gh:owner/repo:a.txt");
    manifest.update(&url("gh:owner/repo:b.txt"), &version("v2")).unwrap();
    match manifest.get(&url("gh:owner/repo:b.txt")) {
        Some(VdmManifestSource::File(file)) => assert_eq!(file.version().as_str(), "v2"),
        _ => panic!("expected a single file"),
    }
    match manifest.update(&url("gh:owner/repo:c.txt"), &version("v2")) {
        Err(e @ VdmError::NotInManifest(_)) => assert_eq!(e.message(), "gh:owner/repo:c.txt is not present in the manifest"),
        other => panic!("expected a missing target, got {other:?}"),
    }
    let entries = manifest.entries();
    assert_eq!(entries.len(), 2);
    assert_eq!(entries[1].1.as_str(), "v2");
    let targets = manifest.iter_targets();
    assert!(targets.iter().all(|t| t.is_ok()));
}

#[test]
fn manifest_entries_are_normalized_and_checked() {
    let grouped = |base: &str| {
        (
            url(base),
            VdmManifestSource::Files(VdmManifestSourceFiles::new(
                version("main"),
                vec![VdmManifestSourceMapFile::Path(VdmManifestTargetPath::new("a.ts"))],
            )),
        )
    };
    let single = |key: &str, v: &str| (url(key), VdmManifestSource::File(VdmManifestSourceFile::Version(version(v))));
    let manifest = VdmManifest::from_entries(vec![single("https://github.com/o/r.git:x/../y.txt", "main")]).unwrap();
    assert_eq!(manifest.entry(0).0.as_str(), "gh:o/r:y.txt");
    assert!(matches!(
        VdmManifest::from_entries(vec![grouped("gh:o/r"), grouped("github.com/o/r")]),
        Err(VdmError::DuplicateManifestSource(_))
    ));
    assert!(matches!(
        VdmManifest::from_entries(vec![grouped("not a source")]),
        Err(VdmError::UnsupportedManifestSource)
    ));
    match VdmManifest::from_entries(vec![single("https://example.com/a.js", "v2")]) {
        Err(e @ VdmError::ManifestVersionMismatch(_, _)) => assert_eq!(
            e.message(),
            "Manifest version \"v2\" does not match source \"https://example.com/a.js\""
        ),
        other => panic!("expected a version mismatch, got {other:?}"),
    }
    let joined = url("gh:o/r").join(&VdmManifestTargetPath::new("src/./a.ts"));
    assert_eq!(joined.as_str(), "gh:o/r:src/a.ts");
    assert_eq!(url("https://example.com/base/").join(&VdmManifestTargetPath::new("f.js")).as_str(), "https://example.com/base/f.js");
}

#[test]
fn url_maps_keep_keys_sorted_and_unique() {
    let mut map: UrlMap<u32> = UrlMap::new();
    for (k, v) in [("b", 1), ("a", 2), ("c", 3), ("a", 4)] {
        map.insert(url(k), v);
    }
    assert_eq!(map.len(), 3);
    let keys: Vec<&str> = (0..map.len()).map(|i| map.entry(i).0.as_str()).collect();
    assert_eq!(keys, ["a", "b", "c"]);
    assert_eq!(map.get(&url("a")), Some(&4));
    assert_eq!(map.remove(&url("b")), Some(1));
    assert!(!map.contains_key(&url("b")));
    assert_eq!(map.remove(&url("b")), None);
}

#[test]
fn lock_files_record_their_target_download_and_path() {
    let target = git("gh:owner/repo:src/a.ts@v1");
    let download = VdmSourceFile { revision: "abc".into(), bytes: b"hello".to_vec() };
    let file = VdmLockFile::new(&target, &download, &paths(), true, vec![url("gh:owner/repo:src/b.ts")]);
    assert_eq!(file.version.as_str(), "v1");
    assert_eq!(file.revision, "abc");
    assert_eq!(file.hash, "sha256:2cf24dba5fb0a30e26e83b2ac5b9e29e1b161e5c1fa7425e73043362938b9824");
    assert_eq!(file.source, "https://github.com/owner/repo/blob/v1/src/a.ts");
    assert_eq!(file.path, "vendor/@gh/owner/repo/src/a.ts");
    assert_eq!(paths().target(&target), "/project/vendor/@gh/owner/repo/src/a.ts");
    assert!(same_lock_file(&file, &file.duplicate()));
    assert!(!same_lock_file(&file, &lock_file("v1", "x", &[])));
}

#[test]
fn lock_destinations_stay_inside_vendor() {
    assert_eq!(paths().lock_destination("vendor/@gh/o/r/a.ts").unwrap(), "/project/vendor/@gh/o/r/a.ts");
    for bad in ["../vendor/a", "vendor/../a", "/vendor/a", "other/a", "./vendor/a"] {
        assert!(matches!(paths().lock_destination(bad), Err(VdmError::UnsafeLockPath(_))), "{bad}");
    }
    assert_eq!(paths().vendor_dir(), "/project/vendor");
}

#[test]
fn insert_file_refuses_a_conflicting_record() {
    let mut files: UrlMap<VdmLockFile> = UrlMap::new();
    insert_file(&mut files, url("k"), lock_file("v1", "vendor/a", &[])).unwrap();
    insert_file(&mut files, url("k"), lock_file("v1", "vendor/a", &[])).unwrap();
    match insert_file(&mut files, url("k"), lock_file("v2", "vendor/a", &[])) {
        Err(e @ VdmError::ConflictingLockEntries(_)) => assert_eq!(e.message(), "Conflicting lock entries for k"),
        other => panic!("expected a conflict, got {other:?}"),
    }
    assert_eq!(files.len(), 1);
}

#[test]
fn lock_documents_group_files_and_read_back() {
    let glob = "gh:owner/repo:**/*.sh";
    let a = "gh:owner/repo:nested/a.sh";
    let b = "gh:owner/repo:root.sh";
    let mut lock = VdmLock::new();
    lock.files.insert(url(a), lock_file("main", "vendor/@gh/owner/repo/nested/a.sh", &[]));
    lock.files.insert(url(b), lock_file("main", "vendor/@gh/owner/repo/root.sh", &[]));
    lock.files.insert(url("http:https://example.com/x.js"), lock_file("", "vendor/@http/example.com/x.js", &[]));
    lock.globs.insert(url(glob), vec![url(a), url(b)]);
    let keys = [a, b, "http:https://example.com/x.js"];
    let expected: Vec<VdmLockFile> = keys.iter().map(|key| lock.files.get(&url(key)).unwrap().duplicate()).collect();
    let document = lock.to_document();
    assert_eq!(document.files.len(), 2);
    match document.files.get(&url(glob)) {
        Some(LockEntry::Glob(files)) => assert_eq!(files.len(), 2),
        _ => panic!("expected the group's files"),
    }
    let restored = VdmLock::from_document(document).unwrap();
    assert_eq!(restored.files.len(), 3);
    assert_eq!(restored.globs.get(&url(glob)).unwrap().len(), 2);
    assert!(restored.files.contains_key(&url(a)));
    for (key, before) in keys.iter().zip(expected.iter()) {
        assert!(same_lock_file(before, restored.files.get(&url(key)).unwrap()));
    }
    let members: Vec<&str> = restored.globs.get(&url(glob)).unwrap().iter().map(|k| k.as_str()).collect();
    assert_eq!(members, vec![a, b]);

    let mut outside: UrlMap<LockEntry> = UrlMap::new();
    outside.insert(url(glob), LockEntry::Glob(vec![lock_file("main", "vendor/@gh/other/repo/a.sh", &[])]));
    assert!(matches!(
        VdmLock::from_document(LockDocument { files: outside, updates: UrlMap::new() }),
        Err(VdmError::GlobFileOutsideRepository)
    ));
    let mut not_glob: UrlMap<LockEntry> = UrlMap::new();
    not_glob.insert(url("gh:owner/repo:a.sh"), LockEntry::Glob(vec![lock_file("main", "vendor/@gh/owner/repo/a.sh", &[])]));
    assert!(matches!(
        VdmLock::from_document(LockDocument { files: not_glob, updates: UrlMap::new() }),
        Err(VdmError::LockArrayKeyNotGlob)
    ));
    let mut http: UrlMap<LockEntry> = UrlMap::new();
    http.insert(url("https://example.com/x.js"), LockEntry::Glob(vec![lock_file("", "vendor/x.js", &[])]));
    assert!(matches!(
        VdmLock::from_document(LockDocument { files: http, updates: UrlMap::new() }),
        Err(VdmError::LockArrayRequiresGitHubTarget)
    ));
}

#[test]
fn reachable_follows_dependencies_and_members() {
    let mut lock = VdmLock::new();
    lock.files.insert(url("a"), lock_file("v", "vendor/a", &["b"]));
    lock.files.insert(url("b"), lock_file("v", "vendor/b", &["c", "a"]));
    lock.files.insert(url("c"), lock_file("v", "vendor/c", &[]));
    lock.files.insert(url("d"), lock_file("v", "vendor/d", &[]));
    lock.globs.insert(url("g"), vec![url("d")]);
    let reached = reachable(&lock, &vec![url("a")]);
    let names: Vec<&str> = reached.iter().map(|k| k.as_str()).collect();
    assert_eq!(names, ["a", "b", "c"]);
    let with_group = reachable(&lock, &vec![url("g"), url("c")]);
    let names: Vec<&str> = with_group.iter().map(|k| k.as_str()).collect();
    assert_eq!(names, ["c", "d", "g"]);
    let stale = stale_keys(&lock, &reached);
    let names: Vec<&str> = stale.iter().map(|k| k.as_str()).collect();
    assert_eq!(names, ["d"]);
}

#[test]
fn remote_refs_are_chosen_by_name_and_sha() {
    let listing = "1111\trefs/heads/main\r\n2222\trefs/tags/v1\nnot a ref line\n";
    let names = ref_names_of_listing(listing);
    assert_eq!(names, strings(&["refs/heads/main", "refs/tags/v1"]));
    assert_eq!(select_remote_ref(&version("main"), &names).unwrap(), "refs/heads/main");
    assert_eq!(select_remote_ref(&version("v1"), &names).unwrap(), "refs/tags/v1");
    let sha = "cc99017271f65dc5e223344c6963df8c3fc429b8";
    assert_eq!(select_remote_ref(&version(sha), &Vec::new()).unwrap(), sha);
    match select_remote_ref(&version("v2"), &names) {
        Err(e @ VdmError::MissingRemoteRef(_)) => assert_eq!(e.message(), "Git origin does not contain ref \"v2\""),
        other => panic!("expected a missing ref, got {other:?}"),
    }
    let both = strings(&["refs/tags/dev", "refs/heads/dev"]);
    assert_eq!(select_remote_ref(&version("dev"), &both).unwrap(), "refs/heads/dev");
}

#[test]
fn default_branch_comes_from_the_symbolic_head() {
    let listing = "ref: refs/heads/custom/default\tHEAD\n1234\tHEAD\n";
    assert_eq!(default_branch_of_listing(listing).unwrap(), "custom/default");
    assert!(matches!(default_branch_of_listing("1234\tHEAD\n"), Err(VdmError::NoDefaultBranch)));
    assert_eq!(fetch_refspec("refs/heads/main"), "+refs/heads/main:refs/vdm/fetch");
    assert_eq!(revision_ref("abc"), "refs/vdm/revisions/abc");
}

#[test]
fn lines_follow_str_lines() {
    for text in ["a\nb\r\nc", "a\n", "", "\n", "x\r", "a\r\n\r\nb\n"] {
        let lines: Vec<String> = lines_exec(&text.chars().collect::<Vec<_>>()).into_iter().map(|l| l.into_iter().collect()).collect();
        let expected: Vec<String> = text.lines().map(str::to_owned).collect();
        assert_eq!(lines, expected, "{text:?}");
    }
}

#[test]
fn tree_paths_are_selected_by_glob_and_sorted() {
    let files = strings(&["root.sh", "nested/deep/b.sh", "file.txt", "nested/a.sh"]);
    let all = target_tree_paths(&git("gh:owner/repo:**/*.sh@main"), &files, "abc123").unwrap();
    assert_eq!(all, strings(&["nested/a.sh", "nested/deep/b.sh", "root.sh"]));
    let shallow = target_tree_paths(&git("gh:owner/repo:*.sh@main"), &files, "abc123").unwrap();
    assert_eq!(shallow, strings(&["root.sh"]));
    match target_tree_paths(&git("gh:owner/repo:**/*.missing@main"), &files, "abc123") {
        Err(e @ VdmError::GlobMatchedNothing(_, _)) => {
            assert_eq!(e.message(), "Git glob **/*.missing matched no files at commit abc123")
        }
        other => panic!("expected an empty glob, got {other:?}"),
    }
    let single = target_tree_paths(&git("gh:owner/repo:file.txt@main"), &files, "abc123").unwrap();
    assert_eq!(single, strings(&["file.txt"]));
    let folder = target_tree_paths(&git("gh:owner/repo:nested/@main"), &files, "abc123").unwrap();
    assert_eq!(folder, strings(&["nested"]));
}

#[test]
fn blobs_are_fetched_in_sorted_batches() {
    let ids: Vec<String> = (0..300).rev().map(|i| format!("{i:04}")).chain(["0001".to_string()]).collect();
    let batches = blob_batches(ids);
    assert_eq!(batches.len(), 3);
    assert_eq!(batches[0].len(), BLOB_BATCH);
    assert_eq!(batches[2].len(), 300 - 2 * BLOB_BATCH);
    let flat: Vec<String> = batches.concat();
    let expected: Vec<String> = (0..300).map(|i| format!("{i:04}")).collect();
    assert_eq!(flat, expected);
    assert!(blob_batches(Vec::new()).is_empty());
}

#[test]
fn caches_place_repositories_under_the_data_folder() {
    let cache = VdmGitCache::in_data_dir("/data");
    assert_eq!(cache.root(), "/data/git/db");
    let target = git("gh:owner/repo:file@main");
    assert_eq!(cache.repository(&target), "/data/git/db/github.com/owner/repo.git");
    assert_eq!(cache.lock_path(&target), "/data/git/db/github.com/owner/repo.lock");
    let remote = git("https://example.com/repo.git:file@main");
    assert!(cache.repository(&remote).starts_with("/data/git/db/remotes/"));
    assert!(cache.repository(&remote).ends_with(".git"));
    if let Ok(found) = VdmGitCache::try_new() {
        assert!(found.root().ends_with("/git/db"));
        let dirs = VdmDirs::resolve().unwrap();
        assert_eq!(dirs.data_local_dir(), dirs.data_local_dir());
        assert_eq!(found.root(), format!("{}/git/db", dirs.data_local_dir().trim_end_matches('/')));
    }
    let legacy = VdmGitHubCache::in_data_dir("/data");
    let file = vdm::source::github::VdmSourceGitHub.parse("gh:owner/repo/file@main").unwrap().unwrap();
    let _ = file;
    let _ = legacy;
    let _ = VdmGitHubCache::try_new();
}

#[test]
fn sorting_orders_strings_by_code_point() {
    assert_eq!(sort_strings(strings(&["b", "a", "B", "a"])), strings(&["B", "a", "a", "b"]));
    assert_eq!(sorted_unique_strings(strings(&["b", "a", "b"])), strings(&["a", "b"]));
}

#[test]
fn graph_walks_visit_each_file_once() {
    let root = VdmAnyTarget::Git(git("gh:owner/repo:a.ts@main"));
    let mut walk = VdmGraphWalk::new(root, None);
    let (first, download) = walk.next().unwrap();
    assert!(download.is_none());
    assert_eq!(first.key().as_str(), "gh:owner/repo:a.ts");
    let deps = vec![
        VdmAnyTarget::Git(git("gh:owner/repo:c.ts@main")),
        VdmAnyTarget::Git(git("gh:owner/repo:b.ts@main")),
        VdmAnyTarget::Git(git("gh:owner/repo:c.ts@main")),
        VdmAnyTarget::Git(git("gh:owner/repo:a.ts@main")),
    ];
    walk.record(first, VdmSourceFile { revision: "r".into(), bytes: Vec::new() }, deps);
    let mut visited = Vec::new();
    while let Some((target, _)) = walk.next() {
        visited.push(target.key().as_str().to_owned());
        walk.record(target, VdmSourceFile { revision: "r".into(), bytes: Vec::new() }, Vec::new());
    }
    assert_eq!(visited, strings(&["gh:owner/repo:c.ts", "gh:owner/repo:b.ts"]));
    let files = walk.finish();
    assert_eq!(files.len(), 3);
    assert!(files.contains_key(&url("gh:owner/repo:a.ts")));
    for i in 0..files.len() {
        let (key, file) = files.entry(i);
        assert_eq!(file.target.key().as_str(), key.as_str());
        for dependency in &file.dependencies {
            assert!(files.contains_key(dependency), "{}", dependency.as_str());
        }
    }
    let a = files.get(&url("gh:owner/repo:a.ts")).unwrap();
    let deps: Vec<&str> = a.dependencies.iter().map(|k| k.as_str()).collect();
    assert_eq!(deps, ["gh:owner/repo:a.ts", "gh:owner/repo:b.ts", "gh:owner/repo:c.ts"]);
    assert_eq!(graph_version(&files, &url("gh:owner/repo:a.ts")).unwrap().as_str(), "main");
    assert!(matches!(graph_version(&UrlMap::new(), &url("x")), Err(VdmError::EmptyGraph)));
}

#[test]
fn javascript_paths_are_recognized_by_extension() {
    for path in ["a.ts", "dir/b.mjs", "/x/c.cts", "d.jsx/", "e.tsx"] {
        assert!(is_javascript_path(path), "{path}");
    }
    for path in ["a.json", ".ts", "dir/", "", "a.ts/..", "README"] {
        assert!(!is_javascript_path(path), "{path}");
    }
    assert_eq!(file_name("a/b/./").map(|n| n.into_iter().collect::<String>()), Some("b".to_string()));
}

#[test]
fn resolutions_are_kept_dropped_or_refused() {
    let m = "/vdm/src/main.ts";
    assert_eq!(classify_resolution(Some("/vdm/src/a.ts"), "/vdm", "./a", m, false).unwrap(), Some("src/a.ts".to_string()));
    assert_eq!(classify_resolution(Some("/vdm/node_modules/x/index.js"), "/vdm", "x", m, false).unwrap(), None);
    match classify_resolution(Some("/elsewhere/a.ts"), "/vdm", "./a", m, false) {
        Err(e @ VdmError::DependencyOutsideSource(_)) => {
            assert_eq!(e.message(), "Resolved dependency /elsewhere/a.ts is outside its source")
        }
        other => panic!("expected a dependency outside its source, got {other:?}"),
    }
    match classify_resolution(Some("/elsewhere/a.ts"), "/vdm", "./a", "https://e.com/m.ts", true) {
        Err(e @ VdmError::DependencyOutsideOrigin(_)) => {
            assert_eq!(e.message(), "Resolved dependency /elsewhere/a.ts is outside its HTTP origin")
        }
        other => panic!("expected a dependency outside its origin, got {other:?}"),
    }
    assert_eq!(classify_resolution(None, "/vdm", "react", m, false).unwrap(), None);
    match classify_resolution(None, "/vdm", "./missing", m, false) {
        Err(e @ VdmError::UnresolvedDependency(_, _)) => {
            assert_eq!(e.message(), "Failed to resolve \"./missing\" from /vdm/src/main.ts")
        }
        other => panic!("expected an unresolved dependency, got {other:?}"),
    }
    assert!(matches!(classify_resolution(None, "/vdm", "#internal", m, false), Err(VdmError::UnresolvedDependency(_, _))));
    assert!(matches!(http_dependency("gh:o/r:f.ts@main").unwrap(), Err(VdmError::DependencyOfOtherSource)));
    assert!(http_dependency("https://example.com/a.ts").unwrap().is_ok());
    assert!(http_dependency("https://example.com/a\0.ts").is_some());
}

#[test]
fn components_are_normalized() {
    let norm = |p: &str| normalize_components(&p.chars().collect::<Vec<_>>()).map(|v| v.into_iter().collect::<String>());
    assert_eq!(norm("a/./b/../c"), Some("a/c".to_string()));
    assert_eq!(norm("tests/nested/dir/../.."), Some("tests".to_string()));
    assert_eq!(norm("../a"), None);
    assert_eq!(norm("/a"), None);
}

#[test]
fn rust_paths_resolve_to_module_files() {
    let mut resolver = RustResolver::new();
    resolver.add_module(Vec::new(), "pkg/src/lib.rs".into());
    resolver.add_module(strings(&["drill"]), "pkg/src/drill.rs".into());
    resolver.add_module(strings(&["drill", "nested"]), "pkg/src/drill.rs".into());
    resolver.add_module(strings(&["error"]), "pkg/src/error.rs".into());
    let scope = strings(&["drill", "nested"]);
    assert_eq!(resolver.resolve_path(&strings(&["drill"]), &strings(&["crate", "error", "Error"])), Some("pkg/src/error.rs".into()));
    assert_eq!(resolver.resolve_path(&scope, &strings(&["super"])), Some("pkg/src/drill.rs".into()));
    assert_eq!(resolver.resolve_path(&scope, &strings(&["super", "super", "error"])), Some("pkg/src/error.rs".into()));
    assert_eq!(resolver.resolve_path(&scope, &strings(&["super", "super", "super"])), None);
    assert_eq!(resolver.resolve_path(&Vec::new(), &strings(&["crate"])), None);
    assert_eq!(resolver.resolve_path(&strings(&["drill"]), &strings(&["self", "nested", "X"])), Some("pkg/src/drill.rs".into()));
    assert_eq!(resolver.resolve_path(&Vec::new(), &strings(&["std", "io"])), None);
    assert_eq!(inclusion_path("pkg/src", "data.txt").unwrap(), "pkg/src/data.txt");
    match inclusion_path("pkg", "../../x") {
        Err(e @ VdmError::RustPathEscapes(_)) => assert_eq!(e.message(), "Rust path pkg/../../x escapes its source"),
        other => panic!("expected an escaping path, got {other:?}"),
    }
    let deps = merge_dependencies(
        "pkg/src/drill.rs",
        strings(&["pkg/src/b.rs"]),
        vec![Some("pkg/src/error.rs".into()), Some("pkg/src/drill.rs".into()), None],
        strings(&["pkg/src/a.txt", "pkg/src/b.rs"]),
    );
    assert_eq!(deps, strings(&["pkg/src/a.txt", "pkg/src/b.rs", "pkg/src/error.rs"]));
}

#[test]
fn command_lines_are_parsed() {
    let parse = |args: &[&str]| VdmCli::parse_args(&strings(args));
    match parse(&["install", "-o", "--manifest", "dir"]).unwrap().command {
        VdmCliCmd::Install(c) => {
            assert!(c.offline);
            assert_eq!(c.manifest_args.manifest.as_deref(), Some("dir"));
        }
        _ => panic!("expected install"),
    }
    match parse(&["add", "gh:o/r:f@main"]).unwrap().command {
        VdmCliCmd::Add(c) => assert_eq!(c.file, "gh:o/r:f@main"),
        _ => panic!("expected add"),
    }
    match parse(&["update", "--review", "--manifest=x", "f"]).unwrap().command {
        VdmCliCmd::Update(c) => {
            assert!(c.review);
            assert_eq!(c.file, "f");
            assert_eq!(c.manifest_args.manifest.as_deref(), Some("x"));
        }
        _ => panic!("expected update"),
    }
    assert!(matches!(parse(&[]), Err(VdmError::MissingCliCommand)));
    assert!(matches!(parse(&["remove"]), Err(VdmError::UnknownCliCommand)));
    assert!(matches!(parse(&["add", "--offline", "f"]), Err(VdmError::UnknownCliOption)));
    assert!(matches!(parse(&["install", "f"]), Err(VdmError::UnexpectedCliArgument)));
    assert!(matches!(parse(&["add", "f", "g"]), Err(VdmError::UnexpectedCliArgument)));
    assert!(matches!(parse(&["add", "--manifest"]), Err(VdmError::MissingCliValue)));
    assert!(matches!(parse(&["add"]), Err(VdmError::MissingCliArgument)));
}

#[test]
fn state_steps_follow_the_lifecycle() {
    assert!(matches!(VdmDirs::from_lookup(None), Err(VdmError::DirsUnavailable)));
    match VdmStateErrored::create_error(VdmError::DirsUnavailable) {
        VdmState::Errored(e) => {
            assert!(e.dirs.is_none());
            assert!(matches!(e.error, VdmError::StateCreation(_)));
        }
        _ => panic!("expected an errored state"),
    }
    let errored = VdmStateInitializing::from_dirs(Err(VdmError::DirsUnavailable));
    assert!(matches!(errored.initialize(), Ok(VdmInitializeStep::Done(VdmState::Errored(_)))));
    let Ok(dirs) = VdmDirs::resolve() else {
        return;
    };
    let state = VdmStateInitializing::from_dirs(Ok(dirs));
    let VdmInitializeStep::ReadProject(initializing) = state.initialize().unwrap() else {
        panic!("expected a project read");
    };
    let initialized = initializing.as_initialized_state(VdmProjectRead::Read(paths(), VdmManifest::new()));
    let VdmLockStep::ReadLock(state) = VdmState::Initialized(match initialized {
        VdmState::Initialized(s) => s,
        _ => panic!("expected an initialized state"),
    })
    .initialize_lock()
    .unwrap() else {
        panic!("expected a lock read");
    };
    let locked = VdmState::Locked(state.as_locked(VdmLock::new()));
    assert!(matches!(locked.initialize_lock(), Err(VdmError::AlreadyLocked)));
    let Ok(dirs) = VdmDirs::resolve() else {
        return;
    };
    assert!(matches!(VdmState::Initializing(VdmStateInitializing { dirs }).initialize_lock(), Err(VdmError::LockWhileInitializing)));
    let Ok(dirs) = VdmDirs::resolve() else {
        return;
    };
    match VdmStateErrored::initialize_error(dirs, None, VdmError::NotInManifest("k".to_string())) {
        VdmState::Errored(e) => assert!(matches!(e.error, VdmError::StateInitialization(_))),
        _ => panic!("expected an errored state"),
    }
    let Ok(dirs) = VdmDirs::resolve() else {
        return;
    };
    let again = VdmStateInitializing::from_dirs(Ok(dirs));
    let VdmInitializeStep::ReadProject(initializing) = again.initialize().unwrap() else {
        panic!("expected a project read");
    };
    let state = initializing.as_initialized_state(VdmProjectRead::Read(paths(), VdmManifest::new()));
    assert!(matches!(state.initialize(), Err(VdmError::AlreadyInitialized)));
}

#[test]
fn groups_record_their_members_and_complete_locks_are_detected() {
    let glob = git("gh:owner/repo:*.ts@main");
    let mut graph: UrlMap<vdm::graph::VitGraphFile> = UrlMap::new();
    for input in ["gh:owner/repo:a.ts@main", "gh:owner/repo:lib/b.ts@main", "https://example.com/c.ts"] {
        let target = VdmSourceInput::parse_target(input).unwrap();
        graph.insert(
            target.key().clone(),
            vdm::graph::VitGraphFile { target, download: VdmSourceFile { revision: "r".into(), bytes: Vec::new() }, dependencies: Vec::new() },
        );
    }
    let mut lock = VdmLock::new();
    record_glob(&mut lock, Some(&glob), &graph).unwrap();
    let members: Vec<&str> = lock.globs.get(&url("gh:owner/repo:*.ts")).unwrap().iter().map(|k| k.as_str()).collect();
    assert_eq!(members, ["gh:owner/repo:a.ts"]);
    let mut untouched = VdmLock::new();
    record_glob(&mut untouched, None, &graph).unwrap();
    assert_eq!(untouched.globs.len(), 0);

    let mut targets: UrlMap<VdmAnyTarget> = UrlMap::new();
    let a = VdmSourceInput::parse_target("gh:owner/repo:a.ts@main").unwrap();
    targets.insert(a.key().clone(), a);
    let mut complete = VdmLock::new();
    complete.files.insert(url("gh:owner/repo:a.ts"), lock_file("main", "vendor/a", &[]));
    let reached = vec![url("gh:owner/repo:a.ts")];
    assert!(lock_complete(&complete, &targets, &reached));
    assert!(!lock_complete(&VdmLock::new(), &targets, &reached));
    complete.files.insert(url("gh:owner/repo:a.ts"), lock_file("other", "vendor/a", &[]));
    assert!(!lock_complete(&complete, &targets, &reached));
}

#[test]
fn github_urls_and_repository_paths() {
    let target = vdm::source::github::VdmSourceGitHub.parse("gh:owner/repo/dir/file.ts@v1").unwrap().unwrap();
    assert_eq!(target.repository_path(), "dir/file.ts");
    assert!(matches!(
        vdm::source::github::VdmSourceGitHub.parse("gh:owner/repo/file"),
        Err(VdmError::MissingGitHubVersion(_))
    ));
    let git_target = git("gh:owner/repo:dir/file.ts@v1");
    assert_eq!(git_target.repository_url(), "https://github.com/owner/repo.git");
    match git_target.with_path("../x") {
        Err(e @ VdmError::PathOutsideRepository(_)) => assert_eq!(e.message(), "Resolved Git path ../x is outside the repository"),
        other => panic!("expected a path outside the repository, got {other:?}"),
    }
    assert_eq!(git_target.with_path("x/y.ts").unwrap().key().as_str(), "gh:owner/repo:x/y.ts");
    for input in ["gh:owner/repo:dir/file.ts@v1", "https://example.com/repo.git:a/b.ts@main"] {
        let t = git(input);
        let same = t.with_path(t.path()).unwrap();
        assert_eq!(same.key().as_str(), t.key().as_str());
        assert_eq!(same.version().as_str(), t.version().as_str());
        assert_eq!(same.source_url(), t.source_url());
        assert_eq!(same.repository_url(), t.repository_url());
    }
    let legacy = match vdm::github::target::VdmGitHubTarget::new(
        "owner".into(),
        "repo".into(),
        VdmManifestTargetPath::new("a.ts"),
        version("v1"),
    ) {
        t => t,
    };
    assert_eq!(github_fetch_url(&legacy), "https://github.com/owner/repo.git");
    let cache = VdmGitHubCache::in_data_dir("/data");
    assert_eq!(cache.repository(&legacy), "/data/git/db/github.com/owner/repo.git");
    assert_eq!(cache.lock_path(&legacy), "/data/git/db/github.com/owner/repo.lock");
    if let Ok(found) = VdmGitHubCache::try_new() {
        assert!(found.owner_dir(&legacy).ends_with("/git/db/github.com/owner"));
    }
}

#[test]
fn github_manifest_entries_read_back_as_their_target() {
    for input in ["gh:owner/repo:src/./a.ts@v1", "github.com/owner/repo.git", "gh:owner/repo:@scope/file.ts@feature/x"] {
        let target = VdmSourceInput::parse_target(input).unwrap();
        let again = VdmSourceInput::parse_manifest_target(target.key(), target.version()).unwrap();
        assert_eq!(again.key().as_str(), target.key().as_str());
        assert_eq!(again.version().as_str(), target.version().as_str());
        assert_eq!(again.vendor_path(), target.vendor_path());
    }
    let doubled = VdmSourceInput::parse_target("gh:owner/x.git.git:f@main").unwrap();
    assert_eq!(doubled.key().as_str(), "gh:owner/x.git:f");
    let again = VdmSourceInput::parse_manifest_target(doubled.key(), doubled.version()).unwrap();
    assert_eq!(again.key().as_str(), "gh:owner/x:f");
}

#[test]
fn pinned_http_entries_read_back_as_their_target() {
    let input = format!("https://example.com/a/./b.js@sha256:{}", "Ab".repeat(32));
    let target = VdmSourceInput::parse_target(&input).unwrap();
    assert_eq!(target.version().as_str(), format!("sha256:{}", "ab".repeat(32)));
    let again = VdmSourceInput::parse_manifest_target(target.key(), target.version()).unwrap();
    assert_eq!(again.key().as_str(), target.key().as_str());
    assert_eq!(again.version().as_str(), target.version().as_str());
    assert_eq!(again.vendor_path(), target.vendor_path());
    let plain = VdmSourceInput::parse_target("https://example.com/c.js").unwrap();
    let again = VdmSourceInput::parse_manifest_target(plain.key(), plain.version()).unwrap();
    assert_eq!(again.key().as_str(), "http:https://example.com/c.js@");
}

#[test]
fn errors_carry_their_messages() {
    assert_eq!(VdmError::PathEscapesRepository.message(), "Repository path must not escape the repository");
    assert_eq!(
        VdmError::DuplicateManifestSource("gh:o/r".to_string()).message(),
        "Manifest source gh:o/r is defined more than once"
    );
    assert_eq!(
        VdmError::DuplicateManifestTarget("gh:o/r:a.ts".to_string()).message(),
        "Manifest target \"gh:o/r:a.ts\" is defined more than once"
    );
    assert_eq!(VdmError::LockWhileInitializing.message(), "Cannot load lock while initializing");
    assert_eq!(VdmError::UnsafeLockPath("../x".to_string()).message(), "Lockfile path \"../x\" is not a safe vendor path");
    match VdmSourceInput::parse_target("https://exa mple.com/a.js") {
        Err(e @ VdmError::InvalidGitHubUrl(_)) => assert_eq!(e.message(), "invalid international domain name"),
        other => panic!("expected a refused probe URL, got {other:?}"),
    }
    match vdm::http::parse::VdmHttpSource.parse_target("https://exa mple.com/a.js") {
        Err(e @ VdmError::InvalidHttpUrl(_)) => assert_eq!(e.message(), "invalid HTTP URL \"https://exa mple.com/a.js\""),
        other => panic!("expected an invalid URL, got {other:?}"),
    }
    assert_eq!(
        VdmError::HttpContentHashMismatch("http:https://e.com/a.js".to_string(), "sha256:00".to_string(), "sha256:11".to_string()).message(),
        "HTTP content hash mismatch for http:https://e.com/a.js: expected sha256:00, got sha256:11"
    );
    assert_eq!(VdmError::DataDirUnavailable.message(), "Failed to locate the local data directory");
    assert_eq!(VdmError::External("disk full".to_string()).message(), "disk full");
    assert_eq!(VdmError::StateCreation(Box::new(VdmError::DirsUnavailable)).message(), "Failed to create Vdm state");
}

#[test]
fn grouped_set_version_changes_only_the_first_matching_file() {
    let mut files = VdmManifestSourceFiles::new(
        version("main"),
        vec![
            VdmManifestSourceMapFile::Path(VdmManifestTargetPath::new("a.ts")),
            VdmManifestSourceMapFile::Path(VdmManifestTargetPath::new("b.ts")),
        ],
    );
    let before: Vec<(String, String)> =
        files.iter_versions().iter().map(|(p, v)| (p.as_str().to_owned(), v.as_str().to_owned())).collect();
    assert!(files.set_version(&url("gh:o/r"), &url("gh:o/r:b.ts"), &version("v2")));
    let after: Vec<(String, String)> =
        files.iter_versions().iter().map(|(p, v)| (p.as_str().to_owned(), v.as_str().to_owned())).collect();
    assert_eq!(after[0], before[0]);
    assert_eq!(after[1], ("b.ts".to_owned(), "v2".to_owned()));
    assert_eq!(files.version().as_str(), "main");
    assert!(!files.set_version(&url("gh:o/r"), &url("gh:o/r:c.ts"), &version("v3")));
    let unchanged: Vec<(String, String)> =
        files.iter_versions().iter().map(|(p, v)| (p.as_str().to_owned(), v.as_str().to_owned())).collect();
    assert_eq!(unchanged, after);
}

#[test]
fn manifest_update_changes_one_target_version() {
    let mut manifest = VdmManifest::from_entries(vec![
        (
            url("gh:o/r"),
            VdmManifestSource::Files(VdmManifestSourceFiles::new(
                version("main"),
                vec![
                    VdmManifestSourceMapFile::Path(VdmManifestTargetPath::new("a.ts")),
                    VdmManifestSourceMapFile::Path(VdmManifestTargetPath::new("b.ts")),
                ],
            )),
        ),
        (url("gh:o/s:c.ts"), VdmManifestSource::File(VdmManifestSourceFile::Version(version("v1")))),
    ])
    .unwrap();
    let pairs = |m: &VdmManifest| -> Vec<(String, String)> {
        m.entries().iter().map(|(k, v)| (k.as_str().to_owned(), v.as_str().to_owned())).collect()
    };
    let before = pairs(&manifest);
    manifest.update(&url("gh:o/r:b.ts"), &version("v2")).unwrap();
    let after = pairs(&manifest);
    assert_eq!(after.len(), before.len());
    for (i, (key, v)) in after.iter().enumerate() {
        assert_eq!(key, &before[i].0);
        if key == "gh:o/r:b.ts" {
            assert_eq!(v, "v2");
        } else {
            assert_eq!(v, &before[i].1);
        }
    }
    let targets = manifest.targets().unwrap();
    assert_eq!(targets.len(), after.len());
}
