use mitase_workbench_server::branch_scope::{
    branch_scope_view, diff_paths, ArtifactOwner, ArtifactUnit, BranchIndex, BranchScopeView, PathTargets,
    TargetArtifact,
};
use mitase_workbench_server::catalog::ItemSummary;
use mitase_workbench_server::changes::{ChangeStatus, ChangedFile};

fn item(id: &str) -> ItemSummary {
    ItemSummary {
        id: id.into(),
        kind: "feature".into(),
        path: "docs/spec.yaml".into(),
        source_hash: "sha256:0".into(),
        title: format!("{id} title"),
        presentation_title_key: None,
        summary: String::new(),
        description: None,
        status: None,
        priority: None,
        principles: vec![],
        rules: vec![],
        criteria: vec![],
        bindings: vec![],
        contracts: vec![],
        anchors: vec![],
    }
}

fn file(status: ChangeStatus, old_path: Option<&str>, new_path: Option<&str>) -> ChangedFile {
    ChangedFile {
        status,
        old_path: old_path.map(str::to_string),
        new_path: new_path.map(str::to_string),
        hunks: vec![],
    }
}

fn index() -> BranchIndex {
    BranchIndex {
        path_targets: vec![PathTargets {
            path: "src/lib.rs".into(),
            targets: vec!["file:src/lib.rs".into()],
        }],
        artifact_units: vec![
            ArtifactUnit { path: "src/lib.rs".into(), identity: "rust:crate::run".into() },
            ArtifactUnit { path: "src/other.rs".into(), identity: "rust:crate::other".into() },
        ],
        target_artifacts: vec![TargetArtifact {
            reference: "symbol:crate::run".into(),
            identity: "rust:crate::run".into(),
        }],
        artifact_owners: vec![ArtifactOwner {
            identity: "rust:crate::run".into(),
            item: "feature.run".into(),
            binding: "feature.run#binding.main".into(),
        }],
    }
}

#[test]
fn branch_scope_splits_owned_and_unowned_files() {
    let files = vec![
        file(ChangeStatus::Modified, Some("src/lib.rs"), Some("src/lib.rs")),
        file(ChangeStatus::Added, None, Some("README.md")),
        file(ChangeStatus::Deleted, Some("src/other.rs"), None),
    ];
    let view = branch_scope_view(
        &index(),
        vec![item("feature.other"), item("feature.run")],
        "main...HEAD".into(),
        &files,
    );
    assert_eq!(view.range, "main...HEAD");
    assert_eq!(view.state, "blocked");
    assert_eq!(
        view.reason.as_deref(),
        Some("changed artifacts include unowned or unresolved units")
    );
    assert_eq!(view.changed.len(), 3);
    let lib = &view.changed[0];
    assert_eq!(lib.path, "src/lib.rs");
    assert_eq!(lib.owners, vec!["feature.run".to_string()]);
    assert_eq!(
        lib.anchors,
        vec![
            "feature.run#binding.main".to_string(),
            "file:src/lib.rs".to_string(),
            "symbol:crate::run".to_string(),
        ]
    );
    assert_eq!(lib.artifact_identities, vec!["rust:crate::run".to_string()]);
    assert_eq!(lib.unresolved_reason, None);
    assert_eq!(
        lib.plan_inclusion_reason.as_deref(),
        Some("canonical artifact identity and ownership relation is present")
    );
    let readme = &view.changed[1];
    assert_eq!(readme.path, "README.md");
    assert!(readme.owners.is_empty());
    assert_eq!(
        readme.unresolved_reason.as_deref(),
        Some("no active artifact identity or exact target")
    );
    assert_eq!(readme.plan_inclusion_reason, None);
    let other = &view.changed[2];
    assert_eq!(other.path, "src/other.rs");
    assert_eq!(other.status, ChangeStatus::Deleted);
    assert_eq!(other.artifact_identities, vec!["rust:crate::other".to_string()]);
    assert_eq!(other.unresolved_reason, None);
    assert_eq!(other.plan_inclusion_reason, None);
    assert_eq!(view.owned.len(), 1);
    assert_eq!(view.owned[0].path, "src/lib.rs");
    let unowned: Vec<&str> = view.unowned.iter().map(|e| e.path.as_str()).collect();
    assert_eq!(unowned, vec!["README.md", "src/other.rs"]);
    let affected: Vec<&str> = view.affected_items.iter().map(|i| i.id.as_str()).collect();
    assert_eq!(affected, vec!["feature.run"]);
}

#[test]
fn branch_scope_is_ready_when_every_file_is_owned() {
    let files = vec![file(ChangeStatus::Modified, Some("src/lib.rs"), Some("src/lib.rs"))];
    let view = branch_scope_view(&index(), vec![item("feature.run")], "r".into(), &files);
    assert_eq!(view.state, "ready");
    assert_eq!(view.reason, None);
    assert!(view.unowned.is_empty());
    assert_eq!(view.affected_items.len(), 1);
}

#[test]
fn branch_scope_without_changes_is_ready_and_empty() {
    let view = branch_scope_view(&index(), vec![item("feature.run")], "r".into(), &vec![]);
    assert_eq!(view.state, "ready");
    assert!(view.changed.is_empty());
    assert!(view.affected_items.is_empty());
}

#[test]
fn branch_scope_not_applicable_carries_its_reason() {
    let view = BranchScopeView::not_applicable("not a git repository".into());
    assert_eq!(view.state, "not_applicable");
    assert_eq!(view.reason.as_deref(), Some("not a git repository"));
    assert!(view.range.is_empty());
    assert!(view.changed.is_empty());
}

#[test]
fn diff_paths_take_the_new_path_and_skip_pathless_files() {
    let files = vec![
        file(ChangeStatus::Renamed, Some("old.rs"), Some("new.rs")),
        file(ChangeStatus::Deleted, Some("gone.rs"), None),
        file(ChangeStatus::Modified, None, None),
    ];
    let paths = diff_paths(&files);
    assert_eq!(paths, vec![("new.rs".to_string(), ChangeStatus::Renamed), ("gone.rs".to_string(), ChangeStatus::Deleted)]);
}
