use vdm::lock::file::VdmLockFile;
use vdm::lock::{VdmLock, VdmLockUpdateDecision};
use vdm::manifest::target::{VdmManifestSourceVersion, VdmManifestTargetUrl};
use vdm::review::{apply_review, review_changes, VdmReviewFile};
use vdm::error::VdmError;
use vdm::map::UrlMap;
use vdm::vendor::{merge_graph, prune_groups};

fn url(s: &str) -> VdmManifestTargetUrl {
    VdmManifestTargetUrl::new(s)
}

fn record(revision: &str, path: &str, deps: &[&str]) -> VdmLockFile {
    VdmLockFile {
        direct: true,
        version: VdmManifestSourceVersion::new("main"),
        revision: revision.into(),
        hash: "sha256:00".into(),
        source: "https://example.com".into(),
        path: path.into(),
        dependencies: deps.iter().map(|d| url(d)).collect(),
    }
}

fn lock_of(files: &[(&str, VdmLockFile)]) -> VdmLock {
    let mut lock = VdmLock::new();
    for (key, file) in files {
        lock.files.insert(url(key), file.duplicate());
    }
    lock
}

#[test]
fn reviews_offer_changed_and_unreached_files_by_path() {
    let root = "gh:o/r:src/main.ts";
    let lock = lock_of(&[
        (root, record("r1", "vendor/b/main.ts", &["gh:o/r:src/old.ts"])),
        ("gh:o/r:src/old.ts", record("r1", "vendor/a/old.ts", &[])),
        ("gh:o/r:src/same.ts", record("r1", "vendor/c/same.ts", &[])),
    ]);
    let mut updated = lock_of(&[
        (root, record("r1", "vendor/b/main.ts", &["gh:o/r:src/old.ts"])),
        ("gh:o/r:src/old.ts", record("r1", "vendor/a/old.ts", &[])),
        ("gh:o/r:src/same.ts", record("r1", "vendor/c/same.ts", &[])),
    ]);
    let records = vec![
        (url(root), record("r2", "vendor/b/main.ts", &["gh:o/r:src/same.ts"])),
        (url("gh:o/r:src/same.ts"), record("r1", "vendor/c/same.ts", &[])),
    ];
    let files = review_changes(&lock, &mut updated, records, &vec![true, true], &vec![url(root)]);
    let paths: Vec<&str> = files.iter().map(|f| f.path.as_str()).collect();
    assert_eq!(paths, vec!["vendor/a/old.ts", "vendor/b/main.ts"]);
    assert!(files[0].next.is_none());
    assert_eq!(files[1].next.as_ref().unwrap().revision, "r2");
    assert_eq!(updated.files.get(&url(root)).unwrap().revision, "r2");
    let again = review_changes(
        &lock,
        &mut lock_of(&[]),
        vec![(url("gh:o/r:src/same.ts"), record("r1", "vendor/c/same.ts", &[]))],
        &vec![false],
        &vec![url("gh:o/r:src/same.ts")],
    );
    assert_eq!(again.len(), 3);
}

#[test]
fn applying_a_review_keeps_only_the_accepted_changes() {
    let root = "gh:o/r:src/*.ts";
    let mut lock = lock_of(&[
        ("gh:o/r:src/a.ts", record("r1", "vendor/a.ts", &[])),
        ("gh:o/r:src/gone.ts", record("r1", "vendor/gone.ts", &[])),
    ]);
    lock.globs.insert(url(root), vec![url("gh:o/r:src/a.ts"), url("gh:o/r:src/gone.ts")]);
    let files = vec![
        VdmReviewFile {
            key: url("gh:o/r:src/a.ts"),
            path: "vendor/a.ts".into(),
            old: Some(record("r1", "vendor/a.ts", &[])),
            next: Some(record("r2", "vendor/a.ts", &[])),
            accepted: true,
        },
        VdmReviewFile {
            key: url("gh:o/r:src/b.ts"),
            path: "vendor/b.ts".into(),
            old: None,
            next: Some(record("r2", "vendor/b.ts", &[])),
            accepted: false,
        },
        VdmReviewFile {
            key: url("gh:o/r:src/gone.ts"),
            path: "vendor/gone.ts".into(),
            old: Some(record("r1", "vendor/gone.ts", &[])),
            next: None,
            accepted: true,
        },
    ];
    let given = vec![url("gh:o/r:src/a.ts"), url("gh:o/r:src/b.ts")];
    let outcome = apply_review(&mut lock, &files, &url(root), Some(&given));
    assert_eq!((outcome.changed, outcome.removed), (1, 1));
    assert!(outcome.manifest_update);
    assert_eq!(lock.files.get(&url("gh:o/r:src/a.ts")).unwrap().revision, "r2");
    assert!(!lock.files.contains_key(&url("gh:o/r:src/b.ts")));
    assert!(!lock.files.contains_key(&url("gh:o/r:src/gone.ts")));
    let members: Vec<&str> = lock.globs.get(&url(root)).unwrap().iter().map(|k| k.as_str()).collect();
    assert_eq!(members, vec!["gh:o/r:src/a.ts"]);
    let rejected = lock.updates.get(&url("gh:o/r:src/b.ts")).unwrap();
    assert_eq!(rejected.decision, VdmLockUpdateDecision::Rejected);
    assert_eq!(rejected.from, None);
    assert_eq!(rejected.to.as_deref(), Some("r2"));
    let accepted = lock.updates.get(&url("gh:o/r:src/gone.ts")).unwrap();
    assert_eq!(accepted.decision, VdmLockUpdateDecision::Accepted);
    assert_eq!(accepted.to, None);

    let mut untouched = lock_of(&[("gh:o/r:f.ts", record("r1", "vendor/f.ts", &[]))]);
    let nothing = vec![VdmReviewFile {
        key: url("gh:o/r:f.ts"),
        path: "vendor/f.ts".into(),
        old: Some(record("r1", "vendor/f.ts", &[])),
        next: Some(record("r2", "vendor/f.ts", &[])),
        accepted: false,
    }];
    let outcome = apply_review(&mut untouched, &nothing, &url("gh:o/r:f.ts"), None);
    assert_eq!((outcome.changed, outcome.removed, outcome.manifest_update), (0, 0, false));
    assert_eq!(untouched.files.get(&url("gh:o/r:f.ts")).unwrap().revision, "r1");
}

#[test]
fn unreached_groups_are_dropped() {
    let mut lock = VdmLock::new();
    lock.globs.insert(url("gh:o/r:a/*.ts"), vec![url("gh:o/r:a/x.ts")]);
    lock.globs.insert(url("gh:o/r:b/*.ts"), vec![]);
    prune_groups(&mut lock, &vec![url("gh:o/r:a/*.ts")]);
    assert!(lock.globs.contains_key(&url("gh:o/r:a/*.ts")));
    assert!(!lock.globs.contains_key(&url("gh:o/r:b/*.ts")));
    assert_eq!(lock.globs.len(), 1);
}

fn graph_file(key: &str, revision: &str, bytes: &[u8]) -> vdm::graph::VitGraphFile {
    vdm::graph::VitGraphFile {
        target: vdm::source::input::VdmSourceInput::parse_target(key).unwrap(),
        download: vdm::source::file::VdmSourceFile { revision: revision.into(), bytes: bytes.to_vec() },
        dependencies: Vec::new(),
    }
}

#[test]
fn graphs_of_targets_merge_unless_they_conflict() {
    let shared = "gh:o/r:shared.ts@main";
    let mut merged = UrlMap::new();
    merged.insert(url("gh:o/r:shared.ts"), graph_file(shared, "c1", b"one"));
    let mut second = UrlMap::new();
    second.insert(url("gh:o/r:shared.ts"), graph_file(shared, "c1", b"one"));
    second.insert(url("gh:o/r:other.ts"), graph_file("gh:o/r:other.ts@main", "c1", b"two"));
    merge_graph(&mut merged, second).unwrap();
    assert_eq!(merged.len(), 2);
    assert_eq!(merged.get(&url("gh:o/r:other.ts")).unwrap().download.bytes, b"two".to_vec());
    let mut third = UrlMap::new();
    third.insert(url("gh:o/r:shared.ts"), graph_file(shared, "c2", b"one"));
    match merge_graph(&mut merged, third) {
        Err(e @ VdmError::ConflictingGraphRevisions(_)) => assert!(e.message().ends_with(" resolves to conflicting revisions")),
        other => panic!("expected conflicting revisions, got {other:?}"),
    }
}

#[test]
fn file_diffs_count_added_and_removed_lines() {
    let (rendered, additions, deletions) = vdm::diff::file_diff("x.ts", b"a\nb\nc\n", b"a\nB\nc\nd\n");
    assert_eq!((additions, deletions), (2, 1));
    assert!(rendered.starts_with("--- a/x.ts\n+++ b/x.ts\n"));
    assert!(rendered.contains("-b\n"));
    assert!(rendered.contains("+B\n"));
    let (same, added, removed) = vdm::diff::file_diff("y", b"same\n", b"same\n");
    assert_eq!((added, removed), (0, 0));
    assert!(same.is_empty());
}
