use mitase_workbench_server::changes::{
    collect_branch_patch, collect_branch_status, collect_untracked, diff_file_view,
    patch_line_counts, scope_diff_view, untracked_patch, ChangeStatus, ChangedFile, ChangedRange,
};
use mitase_workbench_server::scope::{
    diff_base_revision, git_merge_base, no_merge_base_message, parent_or_current,
    validate_diff_range, DiffBase, MergeBaseError,
};

#[test]
fn diff_ranges_must_be_plain_revisions() {
    assert!(validate_diff_range("main...HEAD").is_ok());
    assert!(validate_diff_range("HEAD~1").is_ok());
    assert!(validate_diff_range("").is_err());
    assert!(validate_diff_range("   ").is_err());
    assert!(validate_diff_range("--output=x").is_err());
    assert!(validate_diff_range("main HEAD").is_err());
    assert!(validate_diff_range("main\u{7}").is_err());
    assert!(validate_diff_range("main\u{3000}").is_err());
    assert_eq!(validate_diff_range("").unwrap_err().message(), "invalid Git range");
}

#[test]
fn diff_bases_follow_the_range_syntax() {
    match diff_base_revision("main...feature").unwrap() {
        DiffBase::MergeBase { left, right } => {
            assert_eq!((left.as_str(), right.as_str()), ("main", "feature"));
        }
        other => panic!("unexpected base {other:?}"),
    }
    match diff_base_revision("v1..v2").unwrap() {
        DiffBase::Revision { revision } => assert_eq!(revision, "v1"),
        other => panic!("unexpected base {other:?}"),
    }
    match diff_base_revision("abc123").unwrap() {
        DiffBase::Revision { revision } => assert_eq!(revision, "abc123"),
        other => panic!("unexpected base {other:?}"),
    }
    assert!(diff_base_revision("...feature").is_err());
    assert!(diff_base_revision("-x..y").is_err());
}

#[test]
fn merge_base_output_is_a_trimmed_revision() {
    assert_eq!(git_merge_base(b"0123abcd\n".to_vec()).unwrap(), "0123abcd");
    assert_eq!(git_merge_base(b" \n".to_vec()).unwrap_err(), MergeBaseError::NoRevision);
    assert_eq!(git_merge_base(vec![0xff, 0xfe]).unwrap_err(), MergeBaseError::NotText);
    assert_eq!(no_merge_base_message("HEAD", "origin/main"), "git merge-base HEAD origin/main returned no revision");
}

#[test]
fn parent_revision_falls_back_to_the_current_one() {
    assert_eq!(parent_or_current(Some(b"p1\n".to_vec()), Some(b"c1\n".to_vec())).as_deref(), Some("p1"));
    assert_eq!(parent_or_current(None, Some(b"c1\n".to_vec())).as_deref(), Some("c1"));
    assert_eq!(parent_or_current(None, None), None);
}

fn paths(files: &[ChangedFile]) -> Vec<(ChangeStatus, Option<&str>, Option<&str>)> {
    files
        .iter()
        .map(|f| (f.status, f.old_path.as_deref(), f.new_path.as_deref()))
        .collect()
}

#[test]
fn name_status_output_records_each_change_once() {
    let mut files = Vec::new();
    collect_branch_status(&b"M\0src/lib.rs\0A\0new.rs\0R100\0old.rs\0moved.rs\0D\0gone.rs\0".to_vec(), &mut files);
    assert_eq!(
        paths(&files),
        vec![
            (ChangeStatus::Modified, Some("src/lib.rs"), Some("src/lib.rs")),
            (ChangeStatus::Added, None, Some("new.rs")),
            (ChangeStatus::Renamed, Some("old.rs"), Some("moved.rs")),
            (ChangeStatus::Deleted, Some("gone.rs"), None),
        ]
    );
    collect_branch_status(&b"A\0src/lib.rs\0M\0src/lib.rs\0".to_vec(), &mut files);
    assert_eq!(files.len(), 5);
    assert_eq!(files[0].status, ChangeStatus::Modified);
    assert_eq!(files[4].status, ChangeStatus::Added);
}

#[test]
fn zero_context_patches_record_hunks_on_their_files() {
    let mut files = Vec::new();
    collect_branch_status(&b"M\0src/lib.rs\0D\0gone.rs\0".to_vec(), &mut files);
    let patch = "diff --git a/src/lib.rs b/src/lib.rs\n--- a/src/lib.rs\n+++ b/src/lib.rs\n@@ -3,2 +3,4 @@ fn x\n-a\n+b\n@@ -10 +12 @@\n--- a/gone.rs\n+++ /dev/null\n@@ -1,5 +0,0 @@\n@@ bogus\n";
    assert!(collect_branch_patch(patch.as_bytes().to_vec(), &mut files).is_ok());
    assert_eq!(
        files[0].hunks,
        vec![
            ChangedRange { old_start: 3, old_end: 5, new_start: 3, new_end: 7 },
            ChangedRange { old_start: 10, old_end: 11, new_start: 12, new_end: 13 },
        ]
    );
    assert_eq!(files[1].hunks, vec![ChangedRange { old_start: 1, old_end: 6, new_start: 0, new_end: 0 }]);
    assert!(collect_branch_patch(vec![0xff], &mut files).is_err());
}

#[test]
fn untracked_files_are_added_once() {
    let mut files = Vec::new();
    collect_branch_status(&b"A\0new.rs\0".to_vec(), &mut files);
    collect_untracked(&b"new.rs\0notes.txt\0\0".to_vec(), &mut files);
    assert_eq!(
        paths(&files),
        vec![
            (ChangeStatus::Added, None, Some("new.rs")),
            (ChangeStatus::Untracked, None, Some("notes.txt")),
        ]
    );
}

#[test]
fn diff_views_count_added_and_removed_lines() {
    let patch = "--- a/x\n+++ b/x\n@@ -1 +1 @@\n-old\n+new\n+more\n";
    assert_eq!(patch_line_counts(patch), (2, 1));
    assert_eq!(
        untracked_patch("notes.txt", "one\ntwo\n"),
        "diff --git a/notes.txt b/notes.txt\nnew file mode 100644\n--- /dev/null\n+++ b/notes.txt\n@@ -0,0 +1,2 @@\n+one\n+two\n"
    );
    let file = diff_file_view("notes.txt".into(), ChangeStatus::Untracked, String::new(), "one\ntwo");
    assert_eq!((file.additions, file.deletions), (2, 0));
    let known_file = diff_file_view("x".into(), ChangeStatus::Modified, patch.into(), "ignored");
    assert_eq!(known_file.patch, patch);
    let view = scope_diff_view("main...HEAD".into(), vec![file, known_file]);
    assert_eq!((view.additions, view.deletions), (4, 1));
    assert_eq!(view.state, "ready");
    assert_eq!(scope_diff_view("x".into(), vec![]).state, "empty");
}
