use mitase_workbench_server::selection::TargetTransition;
use mitase_workbench_server::suggestions::{
    approved_suggestion_ids, ensure_homogeneous_approved_transitions, filtered_target_suggestions,
    resolve_approved_target_candidates, resolve_feature_origin_targets, resolve_requested_targets,
    ApprovedTargetSuggestion, IndexedTarget, RejectedSuggestion, TargetSuggestion,
};
use mitase_workbench_server::work::WorkOrigin;

fn suggestion(id: &str, reference: &str, fingerprint: &str, transition: TargetTransition) -> TargetSuggestion {
    TargetSuggestion {
        id: id.into(),
        reference: reference.into(),
        evidence_fingerprint: fingerprint.into(),
        transition,
        rank: 9,
        budget_bytes: None,
        budget_lines: None,
    }
}

fn suggestions() -> Vec<TargetSuggestion> {
    vec![
        suggestion("s1", "file:src/a.rs", "fp1", TargetTransition::Modify),
        suggestion("s2", "file:src/b.rs", "fp2", TargetTransition::Modify),
        suggestion("s3", "file:src/c.rs", "fp3", TargetTransition::Add),
    ]
}

fn approval(criterion: &str, id: &str, fingerprint: &str) -> ApprovedTargetSuggestion {
    ApprovedTargetSuggestion {
        criterion: criterion.into(),
        suggestion_id: id.into(),
        evidence_fingerprint: fingerprint.into(),
    }
}

const CRITERION: &str = "REQ-1#criterion.one";

#[test]
fn rejected_suggestions_are_hidden_only_on_the_same_evidence() {
    let rejected = vec![
        RejectedSuggestion { id: "s2".into(), evidence_fingerprint: "fp2".into() },
        RejectedSuggestion { id: "s3".into(), evidence_fingerprint: "old".into() },
    ];
    let kept = filtered_target_suggestions(&suggestions(), &rejected);
    let ids: Vec<&str> = kept.iter().map(|s| s.id.as_str()).collect();
    assert_eq!(ids, vec!["s1", "s3"]);
    let ranks: Vec<usize> = kept.iter().map(|s| s.rank).collect();
    assert_eq!(ranks, vec![1, 2]);
}

#[test]
fn approved_ids_follow_suggestion_order_and_evidence() {
    let approvals = vec![
        approval(CRITERION, "s3", "fp3"),
        approval(CRITERION, "s1", "fp1"),
        approval(CRITERION, "s2", "stale"),
        approval("REQ-2#criterion.two", "s2", "fp2"),
    ];
    let ids = approved_suggestion_ids(CRITERION, &suggestions(), &approvals);
    assert_eq!(ids, vec!["s1".to_string(), "s3".to_string()]);
}

#[test]
fn approved_candidates_follow_approval_order() {
    let approvals = vec![
        approval(CRITERION, "s3", "fp3"),
        approval("REQ-2#criterion.two", "s2", "fp2"),
        approval(CRITERION, "missing", "fp9"),
        approval(CRITERION, "s1", "fp1"),
    ];
    let picked = resolve_approved_target_candidates(CRITERION, Ok(suggestions()), &approvals).unwrap();
    let ids: Vec<&str> = picked.iter().map(|s| s.id.as_str()).collect();
    assert_eq!(ids, vec!["s3", "s1"]);
    let requested = resolve_requested_targets(CRITERION, Ok(suggestions()), &approvals).unwrap();
    assert_eq!(requested.len(), 2);
    assert_eq!(requested[0].reference, "file:src/c.rs");
    assert_eq!(requested[0].transition, TargetTransition::Add);
    assert_eq!(requested[0].criterion.as_deref(), Some(CRITERION));
    assert_eq!(requested[1].reference, "file:src/a.rs");
    assert_eq!(requested[1].transition, TargetTransition::Modify);
}

#[test]
fn approved_transitions_must_agree() {
    let same = vec![
        suggestion("s1", "a", "f", TargetTransition::Modify),
        suggestion("s2", "b", "f", TargetTransition::Modify),
    ];
    assert!(ensure_homogeneous_approved_transitions(&same).is_ok());
    assert!(ensure_homogeneous_approved_transitions(&vec![]).is_ok());
    let mixed = suggestions();
    assert_eq!(
        ensure_homogeneous_approved_transitions(&mixed).unwrap_err(),
        "approved target suggestions use multiple transitions; create separate WorkRequests"
    );
}

fn index() -> Vec<IndexedTarget> {
    vec![
        IndexedTarget { reference: "FEAT-1#binding.b/target.t".into(), absent: false },
        IndexedTarget { reference: "FEAT-1#binding.b/target.gone".into(), absent: true },
    ]
}

#[test]
fn feature_origin_targets_are_modified_for_the_origin_criterion() {
    let origin = WorkOrigin::FeatureImplementationTarget {
        target: "FEAT-1#binding.b/target.t".into(),
        binding: "FEAT-1#binding.b".into(),
        criterion: CRITERION.into(),
    };
    let targets = resolve_feature_origin_targets(&index(), &origin).unwrap();
    assert_eq!(targets.len(), 1);
    assert_eq!(targets[0].reference, "FEAT-1#binding.b/target.t");
    assert_eq!(targets[0].criterion.as_deref(), Some(CRITERION));
    assert_eq!(targets[0].transition, TargetTransition::Modify);
}

#[test]
fn feature_origin_targets_refuse_unknown_absent_and_requirement_origins() {
    let unknown = WorkOrigin::FeatureImplementationBinding {
        binding: "FEAT-1#binding.b".into(),
        criterion: CRITERION.into(),
        targets: vec!["FEAT-1#binding.b/target.t".into(), "FEAT-1#binding.b/target.x".into()],
    };
    assert_eq!(
        resolve_feature_origin_targets(&index(), &unknown).unwrap_err(),
        "feature origin target FEAT-1#binding.b/target.x is unknown"
    );
    let absent = WorkOrigin::FeatureImplementationBinding {
        binding: "FEAT-1#binding.b".into(),
        criterion: CRITERION.into(),
        targets: vec!["FEAT-1#binding.b/target.gone".into(), "FEAT-1#binding.b/target.x".into()],
    };
    assert_eq!(
        resolve_feature_origin_targets(&index(), &absent).unwrap_err(),
        "feature origin target FEAT-1#binding.b/target.gone is absent"
    );
    let requirement = WorkOrigin::RequirementCriterion { criterion: CRITERION.into() };
    assert_eq!(
        resolve_feature_origin_targets(&index(), &requirement).unwrap_err(),
        "feature origin targets require a Feature implementation origin"
    );
}

#[test]
fn approved_target_resolution_fails_closed_and_filters_stale_evidence() {
    let anchor = "REQ-FIXTURE-001#criterion.behavior";
    let reference = "FEAT-FIXTURE-001#binding.implementation/target.behavior";
    let suggestions = vec![
        TargetSuggestion {
            id: "target-current".into(),
            rank: 1,
            reference: reference.into(),
            transition: TargetTransition::Modify,
            budget_bytes: None,
            budget_lines: None,
            evidence_fingerprint: "current-fingerprint".into(),
        },
        TargetSuggestion {
            id: "target-stale".into(),
            rank: 2,
            reference: reference.into(),
            transition: TargetTransition::Modify,
            budget_bytes: None,
            budget_lines: None,
            evidence_fingerprint: "new-fingerprint".into(),
        },
    ];
    let approvals = vec![
        approval(anchor, "target-current", "current-fingerprint"),
        approval(anchor, "target-stale", "old-fingerprint"),
    ];
    let requested =
        resolve_requested_targets(anchor, Ok(suggestions), &approvals).expect("matching target resolution");
    assert_eq!(requested.len(), 1);
    assert_eq!(requested[0].reference, "FEAT-FIXTURE-001#binding.implementation/target.behavior");
    assert_eq!(requested[0].criterion.as_deref(), Some(anchor));
    let error = resolve_requested_targets(anchor, Err("target suggestion recalculation failed".into()), &approvals)
        .expect_err("suggestion errors must not become empty targets");
    assert_eq!(error, "target suggestion recalculation failed");
}
