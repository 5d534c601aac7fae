use bucket_sync::engine::{
    classify_attempt, decide_upload, sync_entries, sync_entry, CandidateFile, UploadOutcome,
    WarnReason,
};
use bucket_sync::errors::BackupError;
use bucket_sync::index::RemoteIndex;
use bucket_sync::path_codec::normalize;
use bucket_sync::walker::{sync_tree, walk_tree, FsNode};

fn file(name: &str) -> FsNode {
    FsNode::File { name: name.to_string(), readable: true, uploadable: true }
}

fn unreadable_file(name: &str) -> FsNode {
    FsNode::File { name: name.to_string(), readable: false, uploadable: true }
}

fn dir(name: &str, children: Vec<FsNode>) -> FsNode {
    FsNode::Dir { name: name.to_string(), listable: true, children }
}

fn candidate(rel_path: &str, readable: bool, uploadable: bool) -> CandidateFile {
    CandidateFile { rel_path: rel_path.to_string(), readable, uploadable }
}

/// The local tree `{a/x.txt, a/b/y.txt}` used by several scenarios.
fn sample_tree(y_readable: bool) -> FsNode {
    let y = if y_readable { file("y.txt") } else { unreadable_file("y.txt") };
    dir("root", vec![dir("a", vec![file("x.txt"), dir("b", vec![y])])])
}

#[test]
fn walk_yields_files_in_preorder_with_relative_paths() {
    let files = walk_tree(&sample_tree(true)).unwrap();
    let paths: Vec<&str> = files.iter().map(|f| f.rel_path.as_str()).collect();
    assert_eq!(paths, vec!["a/x.txt", "a/b/y.txt"]);
}

#[test]
fn walk_omits_inaccessible_entries() {
    let tree = dir(
        "root",
        vec![
            FsNode::Inaccessible { name: "ghost".to_string() },
            file("kept.txt"),
        ],
    );
    let files = walk_tree(&tree).unwrap();
    let paths: Vec<&str> = files.iter().map(|f| f.rel_path.as_str()).collect();
    assert_eq!(paths, vec!["kept.txt"]);
}

#[test]
fn walk_fails_on_unreadable_subdirectory() {
    let tree = dir(
        "root",
        vec![FsNode::Dir { name: "locked".to_string(), listable: false, children: vec![] }],
    );
    assert!(matches!(walk_tree(&tree), Err(BackupError::DirectoryUnreadable)));
}

#[test]
fn decision_correctness() {
    // Remote index holds only `a/x.txt`: exactly one skip and one upload.
    let mut index = RemoteIndex::new();
    index.insert(normalize("a/x.txt"));
    let report = sync_tree(&mut index, &sample_tree(true)).unwrap();
    assert_eq!(
        report.outcomes,
        vec![UploadOutcome::SkippedAlreadyExists, UploadOutcome::Uploaded]
    );
    assert_eq!(report.uploaded, 1);
    assert_eq!(report.skipped, 1);
    assert_eq!(report.warned, 0);
}

#[test]
fn remote_keys_match_regardless_of_separator_style() {
    let mut index = RemoteIndex::new();
    index.insert(normalize("a\\x.txt"));
    let report = sync_tree(&mut index, &sample_tree(true)).unwrap();
    assert_eq!(
        report.outcomes,
        vec![UploadOutcome::SkippedAlreadyExists, UploadOutcome::Uploaded]
    );
}

#[test]
fn failure_containment() {
    // Reading a/b/y.txt fails: the run completes, the sibling is still
    // attempted, and the failure is a warning, not an abort.
    let tree = dir(
        "root",
        vec![dir(
            "a",
            vec![
                file("x.txt"),
                dir("b", vec![unreadable_file("y.txt")]),
                file("z.txt"),
            ],
        )],
    );
    let mut index = RemoteIndex::new();
    let report = sync_tree(&mut index, &tree).unwrap();
    assert_eq!(
        report.outcomes,
        vec![
            UploadOutcome::Uploaded,
            UploadOutcome::SkippedWithWarning(WarnReason::ReadFailed),
            UploadOutcome::Uploaded,
        ]
    );
    assert_eq!(report.uploaded, 2);
    assert_eq!(report.warned, 1);
    // The failed file's key was still indexed before its read was tried.
    assert!(index.contains(&normalize("a/b/y.txt")));
}

#[test]
fn upload_failure_is_contained_too() {
    let entries = vec![
        candidate("a/ok.txt", true, true),
        candidate("a/rejected.txt", true, false),
        candidate("a/after.txt", true, true),
    ];
    let mut index = RemoteIndex::new();
    let report = sync_entries(&mut index, &entries);
    assert_eq!(
        report.outcomes,
        vec![
            UploadOutcome::Uploaded,
            UploadOutcome::SkippedWithWarning(WarnReason::UploadFailed),
            UploadOutcome::Uploaded,
        ]
    );
}

#[test]
fn fatal_boundary() {
    // The root directory itself cannot be enumerated: the run aborts with
    // the fatal error and performs zero uploads.
    let root = FsNode::Dir { name: "root".to_string(), listable: false, children: vec![file("never.txt")] };
    let mut index = RemoteIndex::new();
    let result = sync_tree(&mut index, &root);
    assert!(matches!(result, Err(BackupError::DirectoryUnreadable)));
    assert_eq!(index.len(), 0);
}

#[test]
fn idempotence() {
    // A failure-free run uploads everything once; a second run over the
    // same tree, against the index the first run left (which matches the
    // remote store), uploads nothing.
    let mut index = RemoteIndex::new();
    let first = sync_tree(&mut index, &sample_tree(true)).unwrap();
    assert_eq!(first.uploaded, 2);
    let second = sync_tree(&mut index, &sample_tree(true)).unwrap();
    assert_eq!(second.uploaded, 0);
    assert_eq!(second.skipped, 2);
}

#[test]
fn same_key_is_never_uploaded_twice_within_a_run() {
    // Two OS-distinct paths that normalize to the same key: only the first
    // is uploaded, whatever order the walk yields them in.
    let entries = vec![candidate("a\\x.txt", true, true), candidate("a/x.txt", true, true)];
    let mut index = RemoteIndex::new();
    let report = sync_entries(&mut index, &entries);
    assert_eq!(
        report.outcomes,
        vec![UploadOutcome::Uploaded, UploadOutcome::SkippedAlreadyExists]
    );
    assert_eq!(index.len(), 1);
}

#[test]
fn failed_upload_is_not_retried_within_the_run() {
    // The key is indexed before the upload is attempted, so a failed
    // upload leaves the file marked as existing for the rest of the run.
    let entries = vec![candidate("a/x.txt", true, false), candidate("a/x.txt", true, true)];
    let mut index = RemoteIndex::new();
    let report = sync_entries(&mut index, &entries);
    assert_eq!(
        report.outcomes,
        vec![
            UploadOutcome::SkippedWithWarning(WarnReason::UploadFailed),
            UploadOutcome::SkippedAlreadyExists,
        ]
    );
}

#[test]
fn decide_upload_hands_out_the_canonical_key_once() {
    let mut index = RemoteIndex::new();
    assert_eq!(decide_upload(&mut index, "dir\\sub\\f.txt"), Some("dir/sub/f.txt".to_string()));
    assert_eq!(decide_upload(&mut index, "dir/sub/f.txt"), None);
}

#[test]
fn classify_attempt_maps_io_results() {
    assert_eq!(classify_attempt(true, true), UploadOutcome::Uploaded);
    assert_eq!(
        classify_attempt(false, true),
        UploadOutcome::SkippedWithWarning(WarnReason::ReadFailed)
    );
    assert_eq!(
        classify_attempt(false, false),
        UploadOutcome::SkippedWithWarning(WarnReason::ReadFailed)
    );
    assert_eq!(
        classify_attempt(true, false),
        UploadOutcome::SkippedWithWarning(WarnReason::UploadFailed)
    );
}

#[test]
fn sync_entry_against_preloaded_index() {
    let mut index = RemoteIndex::new();
    index.insert(normalize("present.txt"));
    assert_eq!(
        sync_entry(&mut index, &candidate("present.txt", true, true)),
        UploadOutcome::SkippedAlreadyExists
    );
    assert_eq!(
        sync_entry(&mut index, &candidate("absent.txt", true, true)),
        UploadOutcome::Uploaded
    );
}
