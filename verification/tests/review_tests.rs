use mitase_workbench_server::anchors::AnchorRelation;
use mitase_workbench_server::catalog::TargetClaim;
use mitase_workbench_server::completeness::{IndexTargets, TargetLifecycle};
use mitase_workbench_server::review::{
    plan_can_replan_candidate, slice_budget_within_limits, split_candidate_blockers, split_candidate_selectable,
    verification_covers_editable_targets, verification_target_is_valid, ArtifactFacts, Blocker, PlanDiagnostic,
    PlanFacts, RequestFacts, RequestedReviewTarget, ReviewIndex, ReviewTarget, SliceCandidate, VerificationClaim,
};
use mitase_workbench_server::selection::{TargetTransition, WorkOperation};
use mitase_workbench_server::sorted::SortedStrings;
use mitase_workbench_server::split::{SliceBudgetUsage, SlicingLimits};

const CRITERION: &str = "REQ#criterion.x";
const EDIT: &str = "F#binding.impl/target.a";
const TEST: &str = "F#binding.test/target.t";

fn set(items: &[&str]) -> SortedStrings {
    let mut s = SortedStrings::new();
    for i in items {
        s.insert(i);
    }
    s
}

fn editable() -> ReviewTarget {
    ReviewTarget {
        reference: EDIT.into(),
        binding: "F#binding.impl".into(),
        item: "F".into(),
        lifecycle: TargetLifecycle::Stable,
        transition: TargetTransition::Modify,
        resolved_path: "src/a.rs".into(),
        verification_claim: None,
    }
}

fn verification() -> ReviewTarget {
    ReviewTarget {
        reference: TEST.into(),
        binding: "F#binding.test".into(),
        item: "F".into(),
        lifecycle: TargetLifecycle::Stable,
        transition: TargetTransition::RunOnly,
        resolved_path: "tests/a.rs".into(),
        verification_claim: Some(VerificationClaim { criterion: CRITERION.into(), target: TEST.into() }),
    }
}

fn index() -> ReviewIndex {
    ReviewIndex {
        targets: IndexTargets { active: set(&[EDIT, TEST]), known: set(&[EDIT, TEST]), with_artifact: set(&[EDIT, TEST]) },
        verification_bindings: set(&["F#binding.test"]),
        implemented_items: set(&["F"]),
        artifacts: vec![ArtifactFacts {
            reference: TEST.into(),
            absent: false,
            claims: vec![TargetClaim::Verifies { criterion: CRITERION.into(), covers: vec![EDIT.into()] }],
        }],
        verification_by_target: vec![AnchorRelation { anchor: EDIT.into(), related: vec![TEST.into()] }],
        all_verification_by_target: vec![],
    }
}

fn budget(files: usize) -> SliceBudgetUsage {
    SliceBudgetUsage { editable_files: files, editable_symbols: 1, verification_targets: 1, readonly_targets: 0, total_bytes: 10 }
}

fn limits() -> SlicingLimits {
    SlicingLimits {
        max_editable_files: 2,
        max_editable_symbols: 10,
        max_verification_targets: 10,
        max_readonly_targets: 10,
        max_total_bytes: 1000,
    }
}

fn slice(low_confidence: bool) -> SliceCandidate {
    SliceCandidate {
        blockers: vec![],
        low_confidence,
        editable_targets: vec![editable()],
        verification_targets: vec![verification()],
        readonly_context: vec![],
        budget: budget(1),
    }
}

fn plan(ready: bool) -> PlanFacts {
    PlanFacts { ready, diagnostics: vec![], closure_implementation_targets: vec![EDIT.into()] }
}

fn request() -> RequestFacts {
    RequestFacts {
        operation: WorkOperation::Modify,
        requested_targets: vec![],
        origin_targets: vec![EDIT.into()],
        criterion: CRITERION.into(),
    }
}

fn rules(blockers: &[Blocker]) -> Vec<&str> {
    blockers.iter().map(|b| b.rule_id.as_str()).collect()
}

#[test]
fn verification_covers_the_editable_target() {
    assert!(verification_target_is_valid(&index(), &verification(), &vec![], CRITERION));
    assert!(!verification_target_is_valid(&index(), &verification(), &vec![], "REQ#criterion.other"));
    assert!(verification_covers_editable_targets(&index(), &vec![editable()], &vec![verification()], &vec![], CRITERION));
    assert!(!verification_covers_editable_targets(&index(), &vec![], &vec![verification()], &vec![], CRITERION));
    let mut idx = index();
    idx.implemented_items = set(&[]);
    assert!(!verification_target_is_valid(&idx, &verification(), &vec![], CRITERION));
    // An explicitly requested verification add does not need an implemented item.
    let requested = vec![RequestedReviewTarget { reference: TEST.into(), transition: TargetTransition::Add }];
    assert!(verification_target_is_valid(&idx, &verification(), &requested, CRITERION));
}

#[test]
fn clean_candidate_has_no_blockers_and_is_selectable() {
    let b = split_candidate_blockers(&plan(true), &slice(false), &request(), &limits(), &index(), true);
    assert!(b.is_empty());
    assert!(split_candidate_selectable(&plan(true), &slice(false), &request(), &limits(), &index(), true, &b));
}

#[test]
fn blockers_are_reported_in_order() {
    let mut s = slice(true);
    s.budget = budget(5);
    s.readonly_context = vec![ReviewTarget {
        reference: "F#binding.impl/target.gone".into(),
        lifecycle: TargetLifecycle::Stable,
        transition: TargetTransition::Readonly,
        resolved_path: "src/gone.rs".into(),
        ..editable()
    }];
    let b = split_candidate_blockers(&plan(false), &s, &request(), &limits(), &index(), false);
    assert_eq!(
        rules(&b),
        vec![
            "plan-needs-review",
            "low-confidence-slice",
            "target-lifecycle",
            "missing-origin-closure",
            "budget-exceeded",
        ]
    );
    assert_eq!(
        b[2].message,
        "candidate target F#binding.impl/target.gone has no valid exact pre-state or planned lifecycle artifact"
    );
    assert_eq!(b[2].path, "src/gone.rs");
    assert!(!split_candidate_selectable(&plan(false), &s, &request(), &limits(), &index(), false, &b));
}

#[test]
fn blocked_plan_that_asked_for_slices_can_be_replanned() {
    let mut p = plan(false);
    p.diagnostics = vec![PlanDiagnostic { rule_id: "MITASE-WORK-003".into(), message: "Split into SLICES".into() }];
    assert!(plan_can_replan_candidate(&p, &slice(false)));
    assert!(!plan_can_replan_candidate(&plan(true), &slice(false)));
    let b = split_candidate_blockers(&p, &slice(false), &request(), &limits(), &index(), true);
    assert!(b.is_empty());
    assert!(split_candidate_selectable(&p, &slice(false), &request(), &limits(), &index(), true, &b));
}

#[test]
fn budget_limits_are_inclusive() {
    assert!(slice_budget_within_limits(&budget(2), &limits()));
    assert!(!slice_budget_within_limits(&budget(3), &limits()));
}

#[test]
fn missing_targets_block_unless_investigating() {
    let mut s = slice(false);
    s.editable_targets = vec![];
    s.verification_targets = vec![];
    let b = split_candidate_blockers(&plan(true), &s, &request(), &limits(), &index(), true);
    assert_eq!(
        rules(&b),
        vec!["missing-editable-target", "missing-verification-coverage", "missing-verification-coverage"]
    );
    let mut investigate = request();
    investigate.operation = WorkOperation::Investigate;
    let b = split_candidate_blockers(&plan(true), &s, &investigate, &limits(), &index(), true);
    assert!(b.is_empty());
}
