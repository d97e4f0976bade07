use mitase_workbench_server::selection::{PlannedTarget, TargetTransition, WorkOperation};
use mitase_workbench_server::slice_selection::{
    check_replanned_slice, select_slice_decision, target_boundaries_match, CanonicalSlice, ReplanOutcome,
    SelectableSlice,
};

fn target(reference: &str, transition: TargetTransition, generated: bool) -> PlannedTarget {
    PlannedTarget { reference: reference.into(), transition, generated }
}

fn slice(id: &str) -> SelectableSlice {
    SelectableSlice {
        id: id.into(),
        editable: vec![target("b.rs", TargetTransition::Modify, false)],
        verification: vec![target("b_test.rs", TargetTransition::RunOnly, false)],
        readonly: vec![target("gen.rs", TargetTransition::Readonly, true), target("a.rs", TargetTransition::Readonly, false)],
        contracts: vec!["C-1".into()],
    }
}

fn decide(
    basis: Option<String>,
    locked: bool,
    plan: Option<&str>,
    id: &str,
    canonical: CanonicalSlice,
    selectable: bool,
) -> Result<mitase_workbench_server::slice_selection::SelectedRequestDraft, (u16, String, String)> {
    select_slice_decision(
        basis,
        locked,
        true,
        plan.map(|p| p.to_string()),
        "digest-1",
        &vec![slice("s1"), slice("s2")],
        id,
        canonical,
        selectable,
        WorkOperation::Modify,
    )
    .map_err(|e| (e.status, e.code, e.message))
}

#[test]
fn a_canonical_selectable_slice_becomes_an_exact_request() {
    let d = decide(None, false, Some("digest-1"), "s2", CanonicalSlice::Same, true).unwrap();
    let refs: Vec<&str> = d.requested_targets.iter().map(|t| t.reference.as_str()).collect();
    assert_eq!(refs, vec!["a.rs", "b.rs", "b_test.rs", "gen.rs"]);
    assert_eq!(d.max_slices, 1);
    assert!(d.exact_scope);
    assert_eq!(d.exact_generated_targets, vec!["gen.rs"]);
    assert_eq!(d.exact_contracts, vec!["C-1"]);
}

#[test]
fn selection_is_refused_in_order() {
    let e = decide(Some("stale basis".into()), true, None, "x", CanonicalSlice::Missing, false).unwrap_err();
    assert_eq!((e.0, e.1.as_str()), (409, "stale-basis"));
    let e = decide(None, true, None, "x", CanonicalSlice::Missing, false).unwrap_err();
    assert_eq!((e.0, e.1.as_str()), (409, "selection-locked"));
    let e = decide(None, false, None, "x", CanonicalSlice::Missing, false).unwrap_err();
    assert_eq!((e.0, e.2.as_str()), (400, "no candidate work plan is available"));
    let e = decide(None, false, Some("digest-0"), "x", CanonicalSlice::Missing, false).unwrap_err();
    assert_eq!((e.0, e.1.as_str()), (409, "stale-candidate-plan"));
    let e = decide(None, false, Some("digest-1"), "x", CanonicalSlice::Missing, false).unwrap_err();
    assert_eq!((e.0, e.1.as_str()), (404, "unknown-slice"));
    let e = decide(None, false, Some("digest-1"), "s1", CanonicalSlice::ReplanFailed("boom".into()), false).unwrap_err();
    assert_eq!((e.0, e.1.as_str(), e.2.as_str()), (409, "replan-failed", "boom"));
    let e = decide(None, false, Some("digest-1"), "s1", CanonicalSlice::Differs, false).unwrap_err();
    assert_eq!((e.0, e.1.as_str()), (409, "non-canonical-slice"));
    let e = decide(None, false, Some("digest-1"), "s1", CanonicalSlice::Same, false).unwrap_err();
    assert_eq!((e.0, e.1.as_str()), (422, "non-selectable-slice"));
}

#[test]
fn the_replan_must_keep_the_boundary() {
    let candidate = slice("s1");
    assert!(target_boundaries_match(&candidate.editable, &slice("s9").editable));
    assert!(!target_boundaries_match(&candidate.editable, &candidate.readonly));
    let ok = check_replanned_slice(
        Ok(ReplanOutcome { ready: true, slices: vec![slice("s1-replanned")] }),
        &candidate,
        Some("digest-1".into()),
        "digest-1",
    );
    assert_eq!(ok.unwrap(), "s1-replanned");
    let mut drifted = slice("s1");
    drifted.contracts = vec![];
    let e = check_replanned_slice(
        Ok(ReplanOutcome { ready: true, slices: vec![drifted] }),
        &candidate,
        Some("digest-1".into()),
        "digest-1",
    )
    .unwrap_err();
    assert_eq!((e.status, e.code.as_str()), (409, "scope-drift"));
    let e = check_replanned_slice(
        Ok(ReplanOutcome { ready: false, slices: vec![slice("s1")] }),
        &candidate,
        Some("digest-1".into()),
        "digest-1",
    )
    .unwrap_err();
    assert_eq!((e.status, e.code.as_str()), (422, "replan-failed"));
    let e = check_replanned_slice(
        Ok(ReplanOutcome { ready: true, slices: vec![slice("s1")] }),
        &candidate,
        Some("digest-2".into()),
        "digest-1",
    )
    .unwrap_err();
    assert_eq!((e.status, e.code.as_str()), (409, "stale-candidate-plan"));
    let e = check_replanned_slice(Err("planner down".into()), &candidate, None, "digest-1").unwrap_err();
    assert_eq!((e.status, e.message.as_str()), (422, "planner down"));
}
