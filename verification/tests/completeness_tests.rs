use mitase_workbench_server::completeness::{
    candidate_target_is_valid, origin_closure_is_complete, ContractFacts, IndexTargets, OriginClosure,
    SliceTarget, SliceView, TargetLifecycle,
};
use mitase_workbench_server::selection::TargetTransition;
use mitase_workbench_server::sorted::SortedStrings;

fn set(items: &[&str]) -> SortedStrings {
    let mut s = SortedStrings::new();
    for i in items {
        s.insert(i);
    }
    s
}

fn strings(items: &[&str]) -> Vec<String> {
    items.iter().map(|s| s.to_string()).collect()
}

fn closure(implementation: &[&str], verification: &[&str], readonly: &[&str], contracts: &[&str]) -> OriginClosure {
    OriginClosure {
        implementation_targets: strings(implementation),
        verification_targets: strings(verification),
        readonly_targets: strings(readonly),
        contracts: strings(contracts),
    }
}

fn st(reference: &str, lifecycle: TargetLifecycle, transition: TargetTransition) -> SliceTarget {
    SliceTarget { reference: reference.into(), lifecycle, transition }
}

fn slice() -> SliceView {
    SliceView {
        editable_targets: vec![st("F#b/target.a", TargetLifecycle::Stable, TargetTransition::Modify)],
        verification_targets: vec![st("F#b/target.t", TargetLifecycle::Stable, TargetTransition::RunOnly)],
        readonly_context: vec![st("F#b/target.r", TargetLifecycle::Stable, TargetTransition::Readonly)],
        contracts: strings(&["F#contract.c"]),
    }
}

fn index() -> IndexTargets {
    let all = ["F#b/target.a", "F#b/target.t", "F#b/target.r"];
    IndexTargets { active: set(&all), known: set(&all), with_artifact: set(&all) }
}

fn contract(source: &str, participants: &[&str]) -> ContractFacts {
    ContractFacts {
        anchor: "F#contract.c".into(),
        guarantees: strings(&["REQ#criterion.x"]),
        source: source.into(),
        participants: strings(participants),
    }
}

fn check(plan: &OriginClosure, origin_targets: &[&str], contracts: Vec<ContractFacts>) -> bool {
    let derived = closure(&["F#b/target.a"], &["F#b/target.t"], &["F#b/target.r"], &["F#contract.c"]);
    origin_closure_is_complete(
        &derived,
        plan,
        &strings(origin_targets),
        "REQ#criterion.x",
        &slice(),
        &index(),
        &contracts,
    )
}

fn plan() -> OriginClosure {
    closure(&["F#b/target.a"], &["F#b/target.t"], &["F#b/target.r"], &["F#contract.c"])
}

#[test]
fn slice_holding_the_whole_closure_is_complete() {
    assert!(check(&plan(), &["F#b/target.a"], vec![contract("F#b/target.r", &[])]));
}

#[test]
fn origin_target_outside_the_closure_is_incomplete() {
    assert!(!check(&plan(), &["F#b/target.other"], vec![]));
}

#[test]
fn derived_closure_must_match_the_slice() {
    let derived = closure(&["F#b/target.a", "F#b/target.extra"], &["F#b/target.t"], &["F#b/target.r"], &["F#contract.c"]);
    assert!(!origin_closure_is_complete(
        &derived,
        &plan(),
        &vec![],
        "REQ#criterion.x",
        &slice(),
        &index(),
        &vec![],
    ));
}

#[test]
fn contract_relating_an_editable_target_is_incomplete() {
    assert!(!check(&plan(), &[], vec![contract("F#b/target.r", &["F#b/target.a"])]));
    // A contract that guarantees another criterion does not matter.
    let mut other = contract("F#b/target.r", &["F#b/target.a"]);
    other.guarantees = strings(&["REQ#criterion.y"]);
    assert!(check(&plan(), &[], vec![other]));
}

#[test]
fn closure_target_missing_from_index_and_slice_is_incomplete() {
    let p = closure(&["F#b/target.a"], &["F#b/target.t"], &["F#b/target.r", "F#b/target.gone"], &[]);
    assert!(!check(&p, &[], vec![]));
}

#[test]
fn planned_target_validity_follows_its_lifecycle() {
    let idx = IndexTargets { active: set(&[]), known: set(&["x"]), with_artifact: set(&["y"]) };
    assert!(candidate_target_is_valid(&idx, &st("x", TargetLifecycle::EnsurePresent, TargetTransition::Add)));
    assert!(!candidate_target_is_valid(&idx, &st("x", TargetLifecycle::EnsurePresent, TargetTransition::Modify)));
    assert!(!candidate_target_is_valid(&idx, &st("x", TargetLifecycle::Stable, TargetTransition::Modify)));
    assert!(candidate_target_is_valid(&idx, &st("y", TargetLifecycle::EnsureAbsent, TargetTransition::Remove)));
    assert!(!candidate_target_is_valid(&idx, &st("y", TargetLifecycle::EnsureAbsent, TargetTransition::Modify)));
}

#[test]
fn split_candidate_accepts_a_planned_remove_with_an_exact_pre_state_artifact() {
    let reference = "FEAT-TEST-001#binding.implementation/target.removed";
    let mut index = IndexTargets { active: set(&[]), known: set(&[]), with_artifact: set(&[reference]) };
    let target = st(reference, TargetLifecycle::EnsureAbsent, TargetTransition::Remove);

    assert!(candidate_target_is_valid(&index, &target));
    index.with_artifact = SortedStrings::new();
    assert!(!candidate_target_is_valid(&index, &target));
}
