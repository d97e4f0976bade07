use mitase_workbench_server::selection::{
    check_editable_transitions, is_editable_transition, requested_transition_rank,
    slice_requested_targets, transitions_homogeneous, work_default_transition, PlannedTarget,
    SelectionRefusal, TargetTransition, WorkOperation,
};

fn target(reference: &str, transition: TargetTransition) -> PlannedTarget {
    PlannedTarget { reference: reference.to_string(), transition, generated: false }
}

fn pairs(targets: &[mitase_workbench_server::selection::RequestedTarget]) -> Vec<(String, TargetTransition)> {
    targets.iter().map(|t| (t.reference.clone(), t.transition)).collect()
}

#[test]
fn transitions_rank_editable_then_run_only_then_readonly() {
    assert!(is_editable_transition(TargetTransition::Add));
    assert!(is_editable_transition(TargetTransition::Remove));
    assert!(!is_editable_transition(TargetTransition::RunOnly));
    assert_eq!(requested_transition_rank(TargetTransition::Modify), 0);
    assert_eq!(requested_transition_rank(TargetTransition::RunOnly), 1);
    assert_eq!(requested_transition_rank(TargetTransition::Readonly), 2);
    assert_eq!(work_default_transition(WorkOperation::Add), TargetTransition::Add);
    assert_eq!(work_default_transition(WorkOperation::Remove), TargetTransition::Remove);
    assert_eq!(work_default_transition(WorkOperation::Document), TargetTransition::Modify);
}

#[test]
fn mixed_editable_transitions_are_refused() {
    assert!(transitions_homogeneous(&vec![]));
    assert!(transitions_homogeneous(&vec![TargetTransition::Add, TargetTransition::Add]));
    assert!(!transitions_homogeneous(&vec![TargetTransition::Add, TargetTransition::Modify]));
    let refused = check_editable_transitions(&vec![
        target("a", TargetTransition::Add),
        target("b", TargetTransition::Modify),
    ]);
    assert_eq!(refused, Err(SelectionRefusal::MixedEditableTransitions));
    assert_eq!(refused.unwrap_err().code(), "mixed-transition");
    assert!(check_editable_transitions(&vec![target("a", TargetTransition::Add)]).is_ok());
}

#[test]
fn slice_boundary_is_sorted_and_deduplicated() {
    let editable = vec![target("src/b.rs", TargetTransition::Modify)];
    let verification = vec![
        target("tests/a.rs", TargetTransition::RunOnly),
        target("src/b.rs", TargetTransition::RunOnly),
    ];
    let readonly = vec![target("docs/c.md", TargetTransition::Readonly)];
    let boundary =
        slice_requested_targets(&editable, &verification, &readonly, WorkOperation::Modify).unwrap();
    assert_eq!(
        pairs(&boundary),
        vec![
            ("docs/c.md".to_string(), TargetTransition::Readonly),
            ("src/b.rs".to_string(), TargetTransition::Modify),
            ("tests/a.rs".to_string(), TargetTransition::RunOnly),
        ]
    );
}

#[test]
fn conflicting_transitions_of_one_target_are_refused() {
    let editable = vec![target("src/b.rs", TargetTransition::Modify)];
    let readonly = vec![target("src/b.rs", TargetTransition::Readonly)];
    let refused = slice_requested_targets(&editable, &vec![], &readonly, WorkOperation::Modify);
    assert_eq!(refused.unwrap_err(), SelectionRefusal::ConflictingTargetTransitions);
    let run_twice = vec![
        target("tests/a.rs", TargetTransition::RunOnly),
        target("tests/a.rs", TargetTransition::RunOnly),
    ];
    assert_eq!(
        slice_requested_targets(&vec![], &run_twice, &vec![], WorkOperation::Modify).unwrap_err(),
        SelectionRefusal::ConflictingTargetTransitions
    );
    let repeated_edit = vec![
        target("src/b.rs", TargetTransition::Add),
        target("src/b.rs", TargetTransition::Add),
    ];
    assert_eq!(
        slice_requested_targets(&repeated_edit, &vec![], &vec![], WorkOperation::Add)
            .unwrap()
            .len(),
        1
    );
}

#[test]
fn an_empty_boundary_is_only_accepted_for_investigations() {
    let refused = slice_requested_targets(&vec![], &vec![], &vec![], WorkOperation::Modify);
    assert_eq!(refused.unwrap_err(), SelectionRefusal::NoExactTargetBoundary);
    assert_eq!(SelectionRefusal::NoExactTargetBoundary.code(), "non-selectable-slice");
    assert!(slice_requested_targets(&vec![], &vec![], &vec![], WorkOperation::Investigate)
        .unwrap()
        .is_empty());
}
