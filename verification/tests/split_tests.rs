use mitase_workbench_server::split::{
    split_reason, SliceBudgetUsage, SlicingLimits, SplitPlan, SplitSlice,
};

fn usage(files: usize, symbols: usize, verification: usize, readonly: usize, bytes: u64) -> SliceBudgetUsage {
    SliceBudgetUsage {
        editable_files: files,
        editable_symbols: symbols,
        verification_targets: verification,
        readonly_targets: readonly,
        total_bytes: bytes,
    }
}

fn limits() -> SlicingLimits {
    SlicingLimits {
        max_editable_files: 3,
        max_editable_symbols: 10,
        max_verification_targets: 2,
        max_readonly_targets: 4,
        max_total_bytes: 1000,
    }
}

fn plan(slices: Vec<SplitSlice>, diagnostics: &[&str]) -> SplitPlan {
    SplitPlan {
        slices,
        diagnostic_messages: diagnostics.iter().map(|d| d.to_string()).collect(),
        canonical_digest: "digest".into(),
    }
}

fn slice(budget: SliceBudgetUsage, blockers: &[&str]) -> SplitSlice {
    SplitSlice { budget, blocker_messages: blockers.iter().map(|b| b.to_string()).collect() }
}

#[test]
fn split_reasons_name_the_first_exceeded_limit() {
    let two = plan(vec![slice(usage(1, 1, 1, 1, 1), &[]), slice(usage(1, 1, 1, 1, 1), &[])], &[]);
    assert_eq!(split_reason(&two, &limits()).code, "independent-target-components");
    let editable = plan(vec![slice(usage(4, 1, 1, 1, 1), &[])], &[]);
    let reason = split_reason(&editable, &limits());
    assert_eq!(reason.code, "editable-budget");
    assert_eq!(reason.message, "The candidate exceeds the configured editable target budget.");
    assert_eq!(reason.planner_basis_digest, "digest");
    assert_eq!(split_reason(&plan(vec![slice(usage(1, 1, 3, 1, 1), &[])], &[]), &limits()).code, "verification-budget");
    assert_eq!(split_reason(&plan(vec![slice(usage(1, 1, 1, 5, 1), &[])], &[]), &limits()).code, "readonly-budget");
    assert_eq!(split_reason(&plan(vec![slice(usage(1, 1, 1, 1, 2000), &[])], &[]), &limits()).code, "total-byte-budget");
}

#[test]
fn within_limits_the_planner_message_decides() {
    let diag = plan(vec![slice(usage(1, 1, 1, 1, 1), &["slice blocker"])], &["Missing Verification coverage"]);
    let reason = split_reason(&diag, &limits());
    assert_eq!(reason.code, "verification-coverage");
    assert_eq!(reason.message, "Missing Verification coverage");
    let blocker = plan(vec![slice(usage(1, 1, 1, 1, 1), &["Readonly context too large"])], &[]);
    assert_eq!(split_reason(&blocker, &limits()).code, "readonly-budget");
    let bytes = plan(vec![slice(usage(1, 1, 1, 1, 1), &["too many bytes"])], &[]);
    assert_eq!(split_reason(&bytes, &limits()).code, "total-byte-budget");
    let none = plan(vec![slice(usage(1, 1, 1, 1, 1), &[])], &[]);
    let reason = split_reason(&none, &limits());
    assert_eq!(reason.code, "editable-budget");
    assert_eq!(reason.message, "The candidate exceeds a configured execution limit.");
    let empty = plan(vec![], &[]);
    assert_eq!(split_reason(&empty, &limits()).code, "editable-budget");
}

#[test]
fn workbench_detail_context_budget_is_explicitly_bounded() {
    // The workspace's detail budget: 160 000 bytes in all.
    let bounded = SlicingLimits { max_total_bytes: 160_000, ..limits() };
    assert_eq!(bounded.max_total_bytes, 160_000);
    let within = plan(vec![slice(usage(1, 1, 1, 1, 160_000), &[])], &["planner split the work"]);
    assert_ne!(split_reason(&within, &bounded).code, "total-byte-budget");
    let over = plan(vec![slice(usage(1, 1, 1, 1, 160_001), &[])], &[]);
    assert_eq!(split_reason(&over, &bounded).code, "total-byte-budget");
}
