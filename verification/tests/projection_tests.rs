use mitase_workbench_server::projection::{
    apply_nested_edit, default_page, navigation, nested_edit, patchable_field, session_capabilities,
    trace_settings, work_capabilities, work_impact, SessionSlice, NestedEdit, NestedEditError, NestedEditOperation,
    SpecificationTraceQuery, WorkbenchPage,
};

#[test]
fn navigation_lists_all_pages_in_order() {
    assert_eq!(default_page(), WorkbenchPage::Work);
    let nav = navigation(WorkbenchPage::Scope);
    assert_eq!(nav.selected_page, WorkbenchPage::Scope);
    assert_eq!(
        nav.pages,
        vec![
            WorkbenchPage::Work,
            WorkbenchPage::Readiness,
            WorkbenchPage::Scope,
            WorkbenchPage::Specifications,
            WorkbenchPage::Diagnostics,
            WorkbenchPage::Settings,
        ]
    );
}

#[test]
fn capabilities_explain_what_is_missing() {
    let caps = work_capabilities(false, false, 0);
    assert_eq!(caps[0].id, "work.plan");
    assert!(!caps[0].enabled);
    assert_eq!(caps[0].disabled_reason.as_deref(), Some("Select a WorkRequest before planning."));
    assert_eq!(caps[1].disabled_reason.as_deref(), Some("Validate the selected plan before verification."));
    let ready = work_capabilities(true, true, 1);
    assert!(ready[0].enabled && ready[1].enabled);
    assert!(ready[1].disabled_reason.is_none());
    assert!(!work_capabilities(true, true, 0)[1].enabled);
}

#[test]
fn work_impact_explains_replanning_and_seeding() {
    assert_eq!(
        work_impact(true, true).reason,
        "Existing work plan must be reviewed after a specification change."
    );
    assert_eq!(
        work_impact(false, false).reason,
        "No explicit implementation target is attached to this candidate yet."
    );
    let ok = work_impact(true, false);
    assert!(ok.seedable && !ok.requires_replan);
    assert_eq!(ok.reason, "Explicit implementation targets are available for review.");
}

#[test]
fn trace_settings_are_clamped() {
    let defaults = trace_settings(&SpecificationTraceQuery { depth: None, mode: None, node_budget: None, edge_budget: None });
    assert_eq!(
        (defaults.mode.as_str(), defaults.depth, defaults.node_budget, defaults.edge_budget),
        ("readable", 1, 80, 160)
    );
    let clamped = trace_settings(&SpecificationTraceQuery {
        depth: Some(20),
        mode: Some("exact".into()),
        node_budget: Some(1),
        edge_budget: Some(5000),
    });
    assert_eq!(
        (clamped.mode.as_str(), clamped.depth, clamped.node_budget, clamped.edge_budget),
        ("exact", 8, 8, 1000)
    );
    let unknown = trace_settings(&SpecificationTraceQuery { depth: Some(0), mode: Some("raw".into()), node_budget: None, edge_budget: None });
    assert_eq!((unknown.mode.as_str(), unknown.depth), ("readable", 1));
}

#[test]
fn nested_edits_update_add_or_remove_by_id() {
    let ids = vec![Some("a".to_string()), None, Some("b".to_string())];
    assert_eq!(nested_edit(&ids, "b", NestedEditOperation::Upsert, None), Ok(NestedEdit::Replace { position: 2 }));
    assert_eq!(nested_edit(&ids, "c", NestedEditOperation::Upsert, None), Ok(NestedEdit::Append));
    assert_eq!(nested_edit(&ids, "c", NestedEditOperation::Upsert, Some("c")), Err(NestedEditError::MissingForUpdate));
    assert_eq!(nested_edit(&ids, "a", NestedEditOperation::Upsert, Some("b")), Err(NestedEditError::Renamed));
    assert_eq!(nested_edit(&ids, "a", NestedEditOperation::Delete, None), Ok(NestedEdit::Remove { position: 0 }));
    assert_eq!(nested_edit(&ids, "z", NestedEditOperation::Delete, None), Err(NestedEditError::Missing));
    let mut values = vec![1, 2, 3];
    apply_nested_edit(&mut values, NestedEdit::Replace { position: 1 }, 9);
    apply_nested_edit(&mut values, NestedEdit::Append, 4);
    apply_nested_edit(&mut values, NestedEdit::Remove { position: 0 }, 0);
    assert_eq!(values, vec![9, 3, 4]);
    assert!(!patchable_field("id") && !patchable_field("bindings") && !patchable_field("contracts"));
    assert!(patchable_field("title"));
}

#[test]
fn session_capabilities_need_a_validated_selected_verifiable_slice() {
    let slices = vec![
        SessionSlice { id: "s1".into(), verification_targets: 0 },
        SessionSlice { id: "s2".into(), verification_targets: 2 },
    ];
    let mut caps = work_capabilities(false, false, 0);
    session_capabilities(&mut caps, true, true, true, &Some("s2".into()), &slices);
    assert!(caps[0].enabled);
    assert!(caps[0].disabled_reason.is_none());
    assert!(caps[1].enabled);
    session_capabilities(&mut caps, false, true, true, &Some("s1".into()), &slices);
    assert!(!caps[0].enabled);
    assert_eq!(caps[0].disabled_reason.as_deref(), Some("Select a WorkRequest before planning."));
    assert!(!caps[1].enabled);
    assert_eq!(
        caps[1].disabled_reason.as_deref(),
        Some("Validate a selected verifiable slice before verification.")
    );
    session_capabilities(&mut caps, true, true, false, &Some("s2".into()), &slices);
    assert!(!caps[1].enabled);
    session_capabilities(&mut caps, true, true, true, &None, &slices);
    assert!(!caps[1].enabled);
}
