use mitase_workbench_server::journey::{
    cancel_action, empty_journey, journey_steps, journey_view, AgentRunStatus, JourneyAdvancedView,
    JourneyInput, JourneyPlan,
};
use mitase_workbench_server::work::{
    check_execution_basis, check_journey_transition, check_mutation_basis, journey_action_key,
    ExecutionIdentity, JourneyAction, JourneyActionCommand, MutationBasis, SnapshotIdentity,
};

fn advanced() -> JourneyAdvancedView {
    JourneyAdvancedView {
        request_id: None,
        plan_id: None,
        selected_slice_id: None,
        attempt_id: None,
        specification_anchor: None,
    }
}

fn input() -> JourneyInput {
    JourneyInput {
        has_request: false,
        agent: None,
        title: String::new(),
        related_specification: None,
        advanced: advanced(),
        plan: None,
        split_recovery: None,
        approved: false,
        validation_passed: false,
        completed: None,
    }
}

#[test]
fn steps_mark_earlier_steps_complete() {
    let steps = journey_steps("approve");
    let statuses: Vec<&str> = steps.iter().map(|s| s.status.as_str()).collect();
    assert_eq!(statuses, vec!["complete", "complete", "current", "upcoming", "upcoming", "upcoming"]);
    assert_eq!(steps[4].title, "Check");
    let unknown = journey_steps("elsewhere");
    assert_eq!(unknown[0].status, "current");
}

#[test]
fn without_work_the_journey_starts_at_the_specifications() {
    let journey = journey_view(input());
    let empty = empty_journey();
    assert_eq!(journey.current_step, "select_specification");
    assert_eq!(journey.primary_action.action, empty.primary_action.action);
    assert_eq!(journey.evidence.status, "not_started");
    assert!(journey.recovery_action.is_none());
}

#[test]
fn an_interrupted_agent_run_must_be_cancelled_first() {
    let mut i = input();
    i.agent = Some(AgentRunStatus::Active);
    let journey = journey_view(i);
    assert_eq!(journey.title, "Interrupted implementation");
    assert_eq!(journey.current_step, "implement");
    assert_eq!(journey.primary_action.action, "cancel");
    assert_eq!(journey.evidence.status, "recovery_required");
    let cancel = cancel_action();
    assert!(cancel.confirmation_required && cancel.enabled);
}

#[test]
fn a_request_without_a_plan_is_prepared_next() {
    let mut i = input();
    i.has_request = true;
    i.title = "Fix the fixture".into();
    let journey = journey_view(i);
    assert_eq!(journey.title, "Fix the fixture");
    assert_eq!(journey.current_step, "review");
    assert_eq!(journey.primary_action.action, "prepare");
    assert_eq!(journey.recovery_action.as_ref().map(|a| a.action.as_str()), Some("cancel"));
    assert_eq!(journey.evidence.status, "draft");
}

#[test]
fn a_ready_plan_with_several_slices_asks_for_one() {
    let mut i = input();
    i.has_request = true;
    i.title = "Split work".into();
    i.plan = Some(JourneyPlan { ready: true, slice_editable_counts: vec![2, 3] });
    let journey = journey_view(i);
    assert_eq!(journey.primary_action.action, "select_slice");
    let scope = journey.approved_scope.expect("scope");
    assert_eq!(scope.summary, "2 focused slices are available.");
    assert_eq!(scope.editable_target_count, 5);
    assert_eq!(scope.slice_count, 2);
    assert_eq!(scope.status, "split-required");
    assert_eq!(journey.evidence.status, "split_required");
}

fn basis(source_hash: &str) -> MutationBasis {
    MutationBasis {
        expected_revision: "rev".into(),
        expected_workspace_fingerprint: "fp".into(),
        expected_source_hash: source_hash.into(),
    }
}

#[test]
fn journey_actions_are_accepted_only_when_offered() {
    let journey = journey_view(input());
    assert!(check_journey_transition(&journey, &JourneyAction::Prepare).is_err());
    let refusal = check_journey_transition(&journey, &JourneyAction::Cancel).unwrap_err();
    assert_eq!(refusal.status, 409);
    assert_eq!(
        refusal.message,
        "journey action cancel is not available; the current next action is choose_specification"
    );
    let mut i = input();
    i.has_request = true;
    let drafted = journey_view(i);
    assert!(check_journey_transition(&drafted, &JourneyAction::Prepare).is_ok());
    assert!(check_journey_transition(&drafted, &JourneyAction::Cancel).is_ok());
    assert_eq!(journey_action_key(&JourneyAction::Restart), "restart");
}

#[test]
fn commands_split_into_basis_and_action() {
    let execution = ExecutionIdentity { plan_digest: "d".into(), slice_id: "s".into() };
    let (b, action) = JourneyActionCommand::Verify { basis: basis("h"), execution }.into_parts();
    assert_eq!(b.expected_source_hash, "h");
    assert_eq!(journey_action_key(&action), "verify");
}

#[test]
fn mutation_bases_must_match_the_snapshot() {
    let snapshot = SnapshotIdentity { revision: "rev".into(), fingerprint: "fp".into(), source_hash: "h".into() };
    assert!(check_mutation_basis(&snapshot, &basis("h")).is_ok());
    assert_eq!(check_mutation_basis(&snapshot, &basis("")).unwrap_err(), "mutation requires expected_source_hash");
    assert!(check_mutation_basis(&snapshot, &basis("other")).unwrap_err().starts_with("Workspace changed"));
    assert!(check_execution_basis(&snapshot, &basis("anything")).is_ok());
    let mut moved = basis("h");
    moved.expected_revision = "old".into();
    assert!(check_execution_basis(&snapshot, &moved).is_err());
}
