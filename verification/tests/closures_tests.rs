use mitase_workbench_server::catalog::{BindingSummary, BindingTargetSummary, ItemSummary, TargetClaim};
use mitase_workbench_server::closures::{
    apply_closure_budget, catalog_claims, closure_targets, criterion_closure, known_targets,
    verification_receipt_view, TraceDiagnosticView, VerificationClaimView, VerificationExecution,
    VerificationReceipt, VerificationReceiptView, VerificationExecutionView,
};
use mitase_workbench_server::sorted::SortedStrings;

const CRITERION: &str = "REQ-1#criterion.a";

fn target(reference: &str, claims: Vec<TargetClaim>) -> BindingTargetSummary {
    BindingTargetSummary {
        reference: reference.into(),
        path: "src/lib.rs".into(),
        selector: "file".into(),
        adapter: "rust".into(),
        lifecycle: "present".into(),
        claims,
    }
}

fn feature() -> ItemSummary {
    ItemSummary {
        id: "FEAT-1".into(),
        kind: "feature".into(),
        path: "docs/features.yaml".into(),
        source_hash: "sha256:0".into(),
        title: "Feature".into(),
        presentation_title_key: None,
        summary: "A feature".into(),
        description: None,
        status: None,
        priority: None,
        principles: vec![],
        rules: vec![],
        criteria: vec![],
        bindings: vec![BindingSummary {
            anchor: "FEAT-1#binding.impl".into(),
            role: "implementation".into(),
            facet: "code".into(),
            responsibility: "does it".into(),
            owns: vec![],
            targets: vec![
                target(
                    "FEAT-1#binding.impl/target.code",
                    vec![TargetClaim::Satisfies { criterion: CRITERION.into() }],
                ),
                target(
                    "FEAT-1#binding.impl/target.test",
                    vec![TargetClaim::Verifies {
                        criterion: CRITERION.into(),
                        covers: vec!["FEAT-1#binding.impl/target.extra".into()],
                    }],
                ),
            ],
        }],
        contracts: vec![],
        anchors: vec![],
    }
}

fn set(values: &[&str]) -> SortedStrings {
    let mut s = SortedStrings::new();
    for v in values {
        s.insert(v);
    }
    s
}

#[test]
fn sorted_strings_keep_order_without_repeats() {
    let s = set(&["b", "a", "c", "a"]);
    assert_eq!(s.to_vec(), vec!["a", "b", "c"]);
    assert!(s.contains("b") && !s.contains("d"));
    assert_eq!(s.len(), 3);
}

#[test]
fn closure_targets_come_from_the_index_and_the_claims() {
    let items = vec![feature()];
    let claims = catalog_claims(&items);
    assert_eq!(claims.len(), 2);
    let (implementation, verification) =
        closure_targets(CRITERION, &vec!["IDX#binding.b/target.t".into()], &vec![], &claims);
    assert_eq!(
        implementation.to_vec(),
        vec![
            "FEAT-1#binding.impl/target.code",
            "FEAT-1#binding.impl/target.extra",
            "IDX#binding.b/target.t",
        ]
    );
    assert_eq!(verification.to_vec(), vec!["FEAT-1#binding.impl/target.test"]);
    let known = known_targets(&items);
    assert_eq!(known.to_vec(), vec!["FEAT-1#binding.impl/target.code", "FEAT-1#binding.impl/target.test"]);
    let closure = criterion_closure(CRITERION, &implementation, &verification, &known, vec![], vec![], None);
    assert_eq!(closure.state, "target-unresolved");
    assert_eq!(
        closure.reasons,
        vec!["A claim points at a target that is not in the canonical projection."]
    );
    assert_eq!(closure.runtime_status, "unavailable");
}

fn execution(target: &str, status: &str) -> VerificationExecutionView {
    VerificationExecutionView {
        identity: format!("S#{target}"),
        target: target.into(),
        claim: Some(VerificationClaimView { target: target.into(), criterion: CRITERION.into() }),
        status: status.into(),
    }
}

fn receipt(executions: Vec<VerificationExecutionView>) -> VerificationReceiptView {
    VerificationReceiptView {
        slice_id: "slice-1".into(),
        status: "passed".into(),
        revision: "rev".into(),
        workspace_fingerprint: "fp".into(),
        started_at: "t0".into(),
        completed_at: "t1".into(),
        executions,
    }
}

#[test]
fn closures_report_missing_targets_blockers_and_runtime_status() {
    let empty = SortedStrings::new();
    let missing = criterion_closure(
        CRITERION,
        &empty,
        &empty,
        &empty,
        vec!["owner missing".into()],
        vec![TraceDiagnosticView {
            identity: "R1".into(),
            severity: "error".into(),
            message: "bad link".into(),
            reason: None,
        }],
        None,
    );
    assert_eq!(missing.state, "implementation-missing");
    assert_eq!(
        missing.reasons,
        vec![
            "No exact implementation target satisfies this criterion.",
            "No exact verification target covers this criterion.",
            "owner missing",
            "bad link",
        ]
    );
    let implementation = set(&["t.code"]);
    let verification = set(&["t.test", "t.test2"]);
    let known = set(&["t.code", "t.test", "t.test2"]);
    let partial = criterion_closure(
        CRITERION,
        &implementation,
        &verification,
        &known,
        vec![],
        vec![],
        Some(&receipt(vec![execution("t.test", "passed"), execution("t.other", "passed")])),
    );
    assert_eq!(partial.state, "declaration-only");
    assert_eq!(partial.runtime_status, "partial");
    assert_eq!(partial.runtime_executions.len(), 1);
    assert_eq!(partial.runtime_receipt.as_deref(), Some("slice-1@rev@t1"));
    let passed = criterion_closure(
        CRITERION,
        &implementation,
        &verification,
        &known,
        vec![],
        vec![],
        Some(&receipt(vec![execution("t.test", "passed"), execution("t.test2", "passed")])),
    );
    assert_eq!(passed.runtime_status, "passed");
    let failed = criterion_closure(
        CRITERION,
        &implementation,
        &verification,
        &known,
        vec![],
        vec![],
        Some(&receipt(vec![execution("t.test", "failed")])),
    );
    assert_eq!(failed.runtime_status, "failed");
    let none = criterion_closure(CRITERION, &implementation, &verification, &known, vec![], vec![], Some(&receipt(vec![])));
    assert_eq!(none.runtime_status, "unavailable");
    assert_eq!(none.runtime_timestamp, None);
}

#[test]
fn closure_budget_cuts_lists_and_counts_what_it_hides() {
    let implementation = set(&["i1", "i2", "i3"]);
    let verification = set(&["v1", "v2"]);
    let known = set(&["i1", "i2", "i3", "v1", "v2"]);
    let make = |criterion: &str| {
        criterion_closure(
            criterion,
            &implementation,
            &verification,
            &known,
            vec!["b1".into(), "b2".into(), "b3".into()],
            vec![],
            None,
        )
    };
    let mut closures = vec![make("C1"), make("C2"), make("C3")];
    let hidden = apply_closure_budget(&mut closures, 2);
    assert_eq!(closures.len(), 2);
    assert_eq!(closures[0].implementation_targets, vec!["i1", "i2"]);
    assert!(closures[0].verification_targets.is_empty());
    assert_eq!(closures[0].hidden_target_count, 3);
    assert_eq!(closures[0].reasons, vec!["b1", "b2"]);
    assert_eq!(closures[0].hidden_reason_count, 1);
    assert_eq!(hidden.closures, 1);
    assert_eq!(hidden.targets, 3 + 3 + 3 + 2);
    assert_eq!(hidden.reasons, 1 + 1 + 1 + 2);
    assert_eq!(hidden.readiness, 1 + 1 + 1 + 2);
}

#[test]
fn receipts_pass_only_when_every_execution_exits_with_zero() {
    let receipt = VerificationReceipt {
        slice_id: "slice-1".into(),
        revision: "rev".into(),
        workspace_fingerprint: "fp".into(),
        started_at: "t0".into(),
        completed_at: "t1".into(),
        executions: vec![
            VerificationExecution { target: "a".into(), claim: None, exit_code: 0 },
            VerificationExecution {
                target: "b".into(),
                claim: Some(VerificationClaimView { target: "b".into(), criterion: CRITERION.into() }),
                exit_code: 2,
            },
        ],
    };
    let view = verification_receipt_view(&receipt);
    assert_eq!(view.status, "failed");
    assert_eq!(view.executions[0].identity, "slice-1#execution-0");
    assert_eq!(view.executions[1].identity, "slice-1#execution-1");
    assert_eq!(view.executions[0].status, "passed");
    assert_eq!(view.executions[1].status, "failed");
    let mut ok = receipt.clone();
    ok.executions.truncate(1);
    assert_eq!(verification_receipt_view(&ok).status, "passed");
}
