use mitase_workbench_server::validation::{
    epoch_ms, issue_counts, phase_views, validation_phase_from_id, validation_phase_id,
    PhaseRuleCounts, Severity, ValidationDiagnosticView, ValidationPhase, ValidationRunState,
    ValidationRunView,
};

fn standard_rules() -> PhaseRuleCounts {
    PhaseRuleCounts { config: 4, graph: 9, targets: 6, scope: 3, plan: 5 }
}

fn diagnostic(code: &str, phase: ValidationPhase, severity: Severity) -> ValidationDiagnosticView {
    ValidationDiagnosticView {
        code: code.to_string(),
        message: "work issue".to_string(),
        path: "work.yaml".to_string(),
        phase,
        severity,
    }
}

#[test]
fn workbench_initial_validation_has_no_passed_or_issue_counts() {
    let run = ValidationRunView::not_run();
    assert!(matches!(run.state, ValidationRunState::NotRun));
    assert_eq!(run.evaluated_rule_count, 0);
    assert_eq!(run.issue_counts.error, 0);
    assert!(run
        .phases
        .iter()
        .all(|phase| matches!(phase.state, ValidationRunState::NotRun)));
}

#[test]
fn workbench_completed_empty_run_distinguishes_applicable_and_skipped_phases() {
    let run = ValidationRunView::completed(
        "workspace",
        Some("abc123".into()),
        vec![],
        false,
        false,
        standard_rules(),
        Some(1_000),
        Some(1_250),
        Some(250),
    );
    assert!(matches!(run.state, ValidationRunState::Passed));
    assert_eq!(run.applicable_phase_count, 3);
    assert_eq!(run.skipped_phase_count, 2);
    assert!(run.evaluated_rule_count > 0);
    assert_eq!(run.diagnostics.len(), 0);
}

#[test]
fn workbench_diagnostic_views_carry_server_classified_phase_and_severity_counts() {
    let run = ValidationRunView::completed(
        "work_plan",
        Some("PLAN-1".into()),
        vec![diagnostic("MITASE-WORK-001", ValidationPhase::Plan, Severity::Error)],
        false,
        true,
        standard_rules(),
        None,
        None,
        None,
    );
    assert!(matches!(run.state, ValidationRunState::Issues));
    assert_eq!(run.issue_counts.error, 1);
    assert_eq!(run.diagnostics[0].phase, ValidationPhase::Plan);
    // The run's per-phase view counts the error under the plan phase only.
    let with_issues: Vec<(&str, usize)> =
        run.phases.iter().filter(|p| p.issue_count > 0).map(|p| (p.id.as_str(), p.issue_counts.error)).collect();
    assert_eq!(with_issues, vec![("plan", 1)]);
}

#[test]
fn completed_runs_count_rules_and_issues_per_phase() {
    let run = ValidationRunView::completed(
        "workspace",
        None,
        vec![
            diagnostic("A", ValidationPhase::Graph, Severity::Warning),
            diagnostic("B", ValidationPhase::Graph, Severity::Error),
            diagnostic("C", ValidationPhase::Config, Severity::Info),
        ],
        true,
        false,
        standard_rules(),
        None,
        None,
        None,
    );
    assert_eq!(run.evaluated_rule_count, 4 + 9 + 6 + 3);
    assert_eq!(run.applicable_phase_count, 4);
    assert_eq!(run.skipped_phase_count, 1);
    assert_eq!((run.issue_counts.error, run.issue_counts.warning, run.issue_counts.info), (1, 1, 1));
    let graph = &run.phases[1];
    assert_eq!(graph.id, "graph");
    assert_eq!(graph.issue_count, 2);
    assert!(matches!(graph.state, ValidationRunState::Issues));
    assert_eq!(graph.evaluated_rules, 9);
    let plan = &run.phases[4];
    assert!(matches!(plan.state, ValidationRunState::NotApplicable));
    assert_eq!(plan.evaluated_rules, 0);
    assert_eq!(plan.not_applicable_reason.as_deref(), Some("No work plan or slice is selected"));
    let scope = &run.phases[3];
    assert!(matches!(scope.state, ValidationRunState::Passed));
    assert_eq!(scope.not_applicable_reason, None);
}

#[test]
fn skipped_scope_phase_gives_its_reason() {
    let phases = phase_views(&vec![], false, true, standard_rules());
    assert_eq!(phases[3].not_applicable_reason.as_deref(), Some("No changed-file range was selected"));
    assert!(matches!(phases[4].state, ValidationRunState::Passed));
}

#[test]
fn failed_and_not_applicable_runs_carry_their_reason_on_every_phase() {
    let failed = ValidationRunView::failed("workspace", "load failed", Some(5), Some(9));
    assert!(matches!(failed.state, ValidationRunState::Failed));
    assert!(failed.phases.iter().all(|p| matches!(p.state, ValidationRunState::Failed)
        && p.not_applicable_reason.as_deref() == Some("load failed")));
    assert_eq!((failed.started_at, failed.completed_at), (Some(5), Some(9)));
    let na = ValidationRunView::not_applicable("work_plan", "no plan");
    assert!(matches!(na.state, ValidationRunState::NotApplicable));
    assert_eq!(na.reason.as_deref(), Some("no plan"));
    assert_eq!(na.skipped_phase_count, 5);
}

#[test]
fn phase_ids_round_trip() {
    for phase in [
        ValidationPhase::Config,
        ValidationPhase::Graph,
        ValidationPhase::Targets,
        ValidationPhase::Scope,
        ValidationPhase::Plan,
    ] {
        assert_eq!(validation_phase_from_id(validation_phase_id(phase)), phase);
    }
    assert_eq!(validation_phase_from_id("unknown"), ValidationPhase::Plan);
}

#[test]
fn epoch_milliseconds_are_cut_to_64_bits() {
    assert_eq!(epoch_ms(Some(1_700_000_000_000)), Some(1_700_000_000_000));
    assert_eq!(epoch_ms(None), None);
    assert_eq!(epoch_ms(Some((1u128 << 64) + 7)), Some(7));
}

#[test]
fn issue_counts_count_each_severity() {
    let counts = issue_counts(&vec![
        diagnostic("A", ValidationPhase::Plan, Severity::Error),
        diagnostic("B", ValidationPhase::Plan, Severity::Error),
        diagnostic("C", ValidationPhase::Scope, Severity::Warning),
    ]);
    assert_eq!((counts.error, counts.warning, counts.info), (2, 1, 0));
}
