use mitase_workbench_server::journey_action::{
    commit_rename, commit_work_request, create_work_request, discard_work, prepared_slice,
    release_criterion_approvals, rename_work, JourneySession, RenameRefusal,
};
use mitase_workbench_server::selection::{TargetTransition, WorkOperation};
use mitase_workbench_server::suggestions::{ApprovedTargetSuggestion, IndexedTarget, TargetSuggestion};
use mitase_workbench_server::work::WorkOrigin;

const SCHEMA: &str = "mitase/work-origin-capability/v1";
const CRITERION: &str = "REQ-1#criterion.a";

fn suggestion(id: &str, transition: TargetTransition, bytes: Option<u64>, lines: Option<u64>) -> TargetSuggestion {
    TargetSuggestion {
        id: id.into(),
        reference: format!("file:src/{id}.rs"),
        evidence_fingerprint: format!("fp-{id}"),
        transition,
        rank: 1,
        budget_bytes: bytes,
        budget_lines: lines,
    }
}

fn approval(id: &str) -> ApprovedTargetSuggestion {
    ApprovedTargetSuggestion {
        criterion: CRITERION.into(),
        suggestion_id: id.into(),
        evidence_fingerprint: format!("fp-{id}"),
    }
}

fn requirement() -> WorkOrigin {
    WorkOrigin::RequirementCriterion { criterion: CRITERION.into() }
}

#[test]
fn a_requirement_origin_requests_its_approved_targets() {
    let suggestions = vec![
        suggestion("a", TargetTransition::Add, Some(100), None),
        suggestion("b", TargetTransition::Add, Some(300), Some(20)),
        suggestion("c", TargetTransition::Modify, Some(900), Some(90)),
    ];
    let approvals = vec![approval("b"), approval("a")];
    let draft =
        create_work_request(SCHEMA, SCHEMA, &requirement(), "  Add login  ", None, Ok(suggestions.clone()), &approvals, &vec![])
            .unwrap();
    assert_eq!(draft.title, "Add login");
    assert_eq!(draft.operation, WorkOperation::Add);
    let refs: Vec<&str> = draft.requested_targets.iter().map(|t| t.reference.as_str()).collect();
    assert_eq!(refs, vec!["file:src/b.rs", "file:src/a.rs"]);
    assert_eq!(draft.max_added_bytes_per_target, Some(300));
    assert_eq!(draft.max_added_lines_per_target, Some(20));
}

#[test]
fn creating_work_is_refused_in_order() {
    let suggestions = vec![
        suggestion("a", TargetTransition::Add, None, None),
        suggestion("c", TargetTransition::Modify, None, None),
    ];
    let approvals = vec![approval("a"), approval("c")];
    let schema = create_work_request("other", SCHEMA, &requirement(), "t", None, Ok(suggestions.clone()), &approvals, &vec![]);
    let e = schema.unwrap_err();
    assert_eq!((e.status, e.code.as_str(), e.message.as_str()), (400, "unsupported-origin-shape", "origin capability schema is invalid"));
    let refused = create_work_request(
        SCHEMA,
        SCHEMA,
        &requirement(),
        "t",
        Some("criterion REQ-1#criterion.a is unknown".into()),
        Ok(suggestions.clone()),
        &approvals,
        &vec![],
    );
    let e = refused.unwrap_err();
    assert_eq!((e.status, e.code.as_str()), (404, "unknown-origin"));
    let blank = create_work_request(SCHEMA, SCHEMA, &requirement(), " \n", None, Ok(suggestions.clone()), &approvals, &vec![]);
    assert_eq!(blank.unwrap_err().message, "provide a work title before continuing");
    let mixed = create_work_request(SCHEMA, SCHEMA, &requirement(), "t", None, Ok(suggestions.clone()), &approvals, &vec![]);
    let e = mixed.unwrap_err();
    assert_eq!((e.status, e.code.as_str()), (422, "mixed-transition"));
}

#[test]
fn a_feature_origin_modifies_its_named_targets() {
    let origin = WorkOrigin::FeatureImplementationTarget {
        target: "FEAT-1#binding.b/target.t".into(),
        binding: "FEAT-1#binding.b".into(),
        criterion: CRITERION.into(),
    };
    let index = vec![IndexedTarget { reference: "FEAT-1#binding.b/target.t".into(), absent: false }];
    let draft = create_work_request(SCHEMA, SCHEMA, &origin, "Fix", None, Ok(vec![]), &vec![], &index).unwrap();
    assert_eq!(draft.operation, WorkOperation::Modify);
    assert_eq!(draft.requested_targets.len(), 1);
    assert_eq!(draft.max_added_bytes_per_target, None);
    let missing = create_work_request(SCHEMA, SCHEMA, &origin, "Fix", None, Ok(vec![]), &vec![], &vec![]);
    let e = missing.unwrap_err();
    assert_eq!(e.status, 422);
    assert_eq!(e.message, "feature origin target FEAT-1#binding.b/target.t is unknown");
}

#[test]
fn renaming_needs_a_title_of_one_to_120_characters_and_started_work() {
    assert_eq!(rename_work("  New title ", true).unwrap(), "New title");
    assert_eq!(rename_work("   ", true).unwrap_err(), RenameRefusal::TitleLength);
    assert_eq!(rename_work(&"x".repeat(121), true).unwrap_err(), RenameRefusal::TitleLength);
    assert_eq!(rename_work(&"x".repeat(120), true).unwrap().len(), 120);
    assert_eq!(rename_work("ok", false).unwrap_err(), RenameRefusal::NoWork);
    assert_eq!(RenameRefusal::NoWork.message(), (409, "start work before changing its title"));
}

#[test]
fn preparing_selects_only_the_single_slice_of_a_ready_plan() {
    assert_eq!(prepared_slice(true, &vec!["s1".into()]), Some("s1".to_string()));
    assert_eq!(prepared_slice(true, &vec!["s1".into(), "s2".into()]), None);
    assert_eq!(prepared_slice(false, &vec!["s1".into()]), None);
}

#[test]
fn creating_work_releases_the_criterion_approvals() {
    let mut approvals = vec![
        approval("a"),
        ApprovedTargetSuggestion { criterion: "REQ-2#criterion.b".into(), suggestion_id: "x".into(), evidence_fingerprint: "f".into() },
        approval("b"),
    ];
    release_criterion_approvals(&mut approvals, CRITERION);
    assert_eq!(approvals.len(), 1);
    assert_eq!(approvals[0].criterion, "REQ-2#criterion.b");
}

#[test]
fn a_failed_recomputation_refuses_a_requirement_origin() {
    let approvals = vec![approval("a")];
    let e = create_work_request(
        SCHEMA,
        SCHEMA,
        &requirement(),
        "t",
        None,
        Err("target suggestion recalculation failed".into()),
        &approvals,
        &vec![],
    )
    .unwrap_err();
    assert_eq!(e.status, 500);
    assert_eq!(e.message, "target suggestion recalculation failed");
}

fn session() -> JourneySession {
    JourneySession {
        approvals: vec![approval("a"), ApprovedTargetSuggestion {
            criterion: "REQ-2#criterion.b".into(),
            suggestion_id: "x".into(),
            evidence_fingerprint: "fp-x".into(),
        }],
        work_title: Some("Old".into()),
        has_request: true,
        has_plan: true,
        has_selected_slice: true,
        has_context_pack: true,
        has_receipt: true,
        has_agent_run: true,
        has_validation: true,
    }
}

#[test]
fn committing_work_resets_the_session_and_uses_up_approvals() {
    let mut s = session();
    let read = session().approvals;
    commit_work_request(&mut s, &read, Some(CRITERION), "New".into()).unwrap();
    assert_eq!(s.work_title.as_deref(), Some("New"));
    assert!(s.has_request && !s.has_plan && !s.has_selected_slice && !s.has_context_pack);
    assert!(!s.has_receipt && !s.has_agent_run && !s.has_validation);
    let left: Vec<&str> = s.approvals.iter().map(|a| a.criterion.as_str()).collect();
    assert_eq!(left, vec!["REQ-2#criterion.b"]);
}

#[test]
fn committing_work_on_changed_approvals_conflicts() {
    let mut s = session();
    let e = commit_work_request(&mut s, &vec![approval("a")], None, "New".into()).unwrap_err();
    assert_eq!(e.status, 409);
    assert_eq!(e.message, "target suggestions changed; review the refreshed evidence");
    assert_eq!(s.work_title.as_deref(), Some("Old"));
    assert!(s.has_plan);
    assert_eq!(s.approvals.len(), 2);
}

#[test]
fn renaming_and_discarding_work() {
    let mut s = session();
    commit_rename(&mut s, "  Better  ").unwrap();
    assert_eq!(s.work_title.as_deref(), Some("Better"));
    assert!(s.has_plan);
    assert_eq!(commit_rename(&mut s, "   ").unwrap_err(), RenameRefusal::TitleLength);
    discard_work(&mut s);
    assert!(s.work_title.is_none() && !s.has_request && s.approvals.is_empty());
    assert_eq!(commit_rename(&mut s, "x").unwrap_err(), RenameRefusal::NoWork);
}
