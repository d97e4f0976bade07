use mitase_workbench_server::history::{
    completion_history, AttemptRecord, CompletionAttemptView, CompletionBlocker,
    CompletionHistoryView, CompletionStatus,
};

#[test]
fn completion_history_scopes_attempts_to_the_active_plan_and_slice() {
    let attempt = |id: &str, plan_digest: &str, slice_id: &str| CompletionAttemptView {
        attempt_id: id.into(),
        plan_digest: plan_digest.into(),
        slice_id: slice_id.into(),
        status: CompletionStatus::Complete,
        demonstrated: vec![],
        blockers: vec![],
        next_action: None,
        finalized: false,
        stale: false,
    };
    let history = CompletionHistoryView {
        current: Some(attempt("attempt-old", "plan-old", "slice-old")),
        previous: vec![attempt("attempt-current", "plan-current", "slice-current")],
    };
    assert_eq!(
        history
            .current_for("plan-current", "slice-current")
            .map(|attempt| attempt.attempt_id.as_str()),
        Some("attempt-current")
    );
    assert!(history.current_for("plan-current", "slice-other").is_none());
}

#[test]
fn completion_history_puts_the_newest_attempt_first_with_its_next_action() {
    let record = |id: &str, blockers: Vec<CompletionBlocker>| AttemptRecord {
        attempt_id: id.into(),
        plan_digest: "plan".into(),
        slice_id: "slice".into(),
        status: CompletionStatus::Incomplete,
        demonstrated: vec!["REQ-1#criterion.a".into()],
        blockers,
        finalized: false,
        stale: true,
    };
    let history = completion_history(vec![
        record(
            "newest",
            vec![
                CompletionBlocker { message: "tests fail".into(), next_action: "fix tests".into() },
                CompletionBlocker { message: "lint".into(), next_action: "run lint".into() },
            ],
        ),
        record("older", vec![]),
    ]);
    let current = history.current.as_ref().expect("current attempt");
    assert_eq!(current.attempt_id, "newest");
    assert_eq!(current.next_action.as_deref(), Some("fix tests"));
    assert_eq!(history.previous.len(), 1);
    assert_eq!(history.previous[0].next_action, None);
    assert_eq!(history.current_for("plan", "slice").map(|a| a.attempt_id.as_str()), Some("newest"));
    let empty = completion_history(vec![]);
    assert!(empty.current.is_none() && empty.previous.is_empty());
}

#[test]
fn completion_history_projection_is_store_backed() {
    // The store of a fresh workspace holds no attempt.
    let history = completion_history(vec![]);
    assert!(history.current.is_none());
    assert!(history.previous.is_empty());
}
