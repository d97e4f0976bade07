use mitase_workbench_server::approval::{
    approve_target_suggestions, reject_target_suggestion, ApprovalRefusal, RejectionRefusal,
    SplitWorkRecommendation,
};
use mitase_workbench_server::selection::TargetTransition;
use mitase_workbench_server::suggestions::{
    approved_suggestion_ids, filtered_target_suggestions, ApprovedTargetSuggestion, RejectedSuggestion,
    TargetSuggestion,
};

const CRITERION: &str = "REQ-1#criterion.a";

fn suggestion(id: &str, transition: TargetTransition) -> TargetSuggestion {
    TargetSuggestion {
        id: id.into(),
        reference: format!("file:src/{id}.rs"),
        evidence_fingerprint: format!("fp-{id}"),
        transition,
        rank: 1,
        budget_bytes: None,
        budget_lines: None,
    }
}

fn ids(v: &[&str]) -> Vec<String> {
    v.iter().map(|s| s.to_string()).collect()
}

fn approval(criterion: &str, id: &str, fp: &str) -> ApprovedTargetSuggestion {
    ApprovedTargetSuggestion {
        criterion: criterion.into(),
        suggestion_id: id.into(),
        evidence_fingerprint: fp.into(),
    }
}

fn keys(v: &[ApprovedTargetSuggestion]) -> Vec<(String, String, String)> {
    v.iter()
        .map(|a| (a.criterion.clone(), a.suggestion_id.clone(), a.evidence_fingerprint.clone()))
        .collect()
}

#[test]
fn approval_is_refused_when_the_suggestions_changed_or_ids_are_wrong() {
    let current = vec![suggestion("a", TargetTransition::Modify)];
    let mut approvals = vec![approval(CRITERION, "a", "old")];
    let changed = approve_target_suggestions(CRITERION, &current, "t2", "t1", &ids(&["a"]), None, &mut approvals);
    let refusal = changed.unwrap_err();
    assert_eq!(refusal, ApprovalRefusal::SuggestionsChanged);
    assert_eq!(refusal.status(), 409);
    assert_eq!(refusal.message(), "target suggestions changed; review the refreshed evidence");
    let empty = approve_target_suggestions(CRITERION, &current, "t", "t", &ids(&[]), None, &mut approvals);
    assert_eq!(empty.unwrap_err(), ApprovalRefusal::NoUniqueIds);
    let twice = approve_target_suggestions(CRITERION, &current, "t", "t", &ids(&["a", "a"]), None, &mut approvals);
    assert_eq!(twice.unwrap_err(), ApprovalRefusal::NoUniqueIds);
    let stale = approve_target_suggestions(CRITERION, &current, "t", "t", &ids(&["a", "b"]), None, &mut approvals);
    let refusal = stale.unwrap_err();
    assert_eq!(refusal, ApprovalRefusal::StaleSuggestion);
    assert_eq!(refusal.status(), 400);
    assert_eq!(keys(&approvals), keys(&[approval(CRITERION, "a", "old")]));
}

#[test]
fn a_planner_split_is_answered_for_non_modify_approvals() {
    let current = vec![suggestion("a", TargetTransition::Add), suggestion("b", TargetTransition::Modify)];
    let mut approvals = vec![];
    let split = SplitWorkRecommendation {
        reason: "Too broad".into(),
        suggested_groups: vec![ids(&["a"]), ids(&["b"])],
    };
    let view = approve_target_suggestions(CRITERION, &current, "t", "t", &ids(&["a", "b"]), Some(split), &mut approvals)
        .unwrap();
    assert!(view.approved_ids.is_empty());
    let rec = view.split_recommendation.unwrap();
    assert_eq!(rec.reason, "Too broad");
    assert_eq!(rec.suggested_groups, vec![ids(&["a"]), ids(&["b"])]);
    assert!(approvals.is_empty());
}

#[test]
fn mixed_transitions_over_two_targets_are_split_by_transition() {
    let current = vec![
        suggestion("m1", TargetTransition::Modify),
        suggestion("r1", TargetTransition::Remove),
        suggestion("a1", TargetTransition::Add),
        suggestion("m2", TargetTransition::Modify),
    ];
    let mut approvals = vec![];
    let view = approve_target_suggestions(
        CRITERION,
        &current,
        "t",
        "t",
        &ids(&["m2", "a1", "r1", "m1"]),
        None,
        &mut approvals,
    )
    .unwrap();
    assert!(view.approved_ids.is_empty());
    let rec = view.split_recommendation.unwrap();
    assert_eq!(
        rec.reason,
        "Selected targets use incompatible transitions; approve one transition group at a time."
    );
    assert_eq!(rec.suggested_groups, vec![ids(&["a1"]), ids(&["m1", "m2"]), ids(&["r1"])]);
    assert!(approvals.is_empty());
}

#[test]
fn approvals_are_recorded_and_replace_earlier_evidence() {
    let current = vec![
        suggestion("a", TargetTransition::Modify),
        suggestion("b", TargetTransition::Add),
        suggestion("c", TargetTransition::Modify),
    ];
    let mut approvals = vec![
        approval(CRITERION, "a", "old"),
        approval("REQ-2#criterion.b", "a", "other"),
    ];
    let view = approve_target_suggestions(CRITERION, &current, "t", "t", &ids(&["c", "a"]), None, &mut approvals)
        .unwrap();
    assert_eq!(view.approved_ids, ids(&["a", "c"]));
    assert!(view.split_recommendation.is_none());
    assert_eq!(
        keys(&approvals),
        keys(&[
            approval("REQ-2#criterion.b", "a", "other"),
            approval(CRITERION, "a", "fp-a"),
            approval(CRITERION, "c", "fp-c"),
        ])
    );
    assert_eq!(approved_suggestion_ids(CRITERION, &current, &approvals), ids(&["a", "c"]));
    let again = approve_target_suggestions(CRITERION, &current, "t", "t", &ids(&["c", "a"]), None, &mut approvals)
        .unwrap();
    assert_eq!(again.approved_ids, ids(&["a", "c"]));
    assert_eq!(approvals.len(), 3);
}

#[test]
fn rejecting_hides_the_suggestion_and_withdraws_its_approval() {
    let current = vec![suggestion("a", TargetTransition::Modify), suggestion("b", TargetTransition::Modify)];
    let mut rejected = vec![RejectedSuggestion { id: "a".into(), evidence_fingerprint: "older".into() }];
    let mut approvals = vec![approval(CRITERION, "a", "fp-a"), approval(CRITERION, "b", "fp-b")];
    reject_target_suggestion(CRITERION, &current, "t", "t", "a", &mut rejected, &mut approvals).unwrap();
    assert_eq!(rejected.len(), 1);
    assert_eq!(rejected[0].evidence_fingerprint, "fp-a");
    assert_eq!(keys(&approvals), keys(&[approval(CRITERION, "b", "fp-b")]));
    let shown: Vec<String> = filtered_target_suggestions(&current, &rejected).into_iter().map(|s| s.id).collect();
    assert_eq!(shown, ids(&["b"]));
}

#[test]
fn rejection_is_refused_for_changed_or_unknown_suggestions() {
    let current = vec![suggestion("a", TargetTransition::Modify)];
    let mut rejected = vec![];
    let mut approvals = vec![approval(CRITERION, "a", "fp-a")];
    let changed = reject_target_suggestion(CRITERION, &current, "t2", "t1", "a", &mut rejected, &mut approvals);
    assert_eq!(changed, Err(RejectionRefusal::SuggestionsChanged));
    assert_eq!(RejectionRefusal::SuggestionsChanged.status(), 409);
    let unknown = reject_target_suggestion(CRITERION, &current, "t", "t", "zz", &mut rejected, &mut approvals);
    assert_eq!(unknown, Err(RejectionRefusal::UnknownSuggestion));
    assert_eq!(
        RejectionRefusal::UnknownSuggestion.message(),
        "suggestion is not part of the reviewed candidate set"
    );
    assert!(rejected.is_empty());
    assert_eq!(approvals.len(), 1);
}
