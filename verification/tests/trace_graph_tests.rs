use mitase_workbench_server::catalog::{
    BindingSummary, BindingTargetSummary, CriterionSummary, ItemSummary, RuleSummary, TargetClaim,
};
use mitase_workbench_server::trace::TraceNodes;
use mitase_workbench_server::trace_graph::{
    add_anchor_trace_node, anchor_node_spec, claim_destinations, selector_label, target_node_spec, Selector,
};

fn item(id: &str, kind: &str) -> ItemSummary {
    ItemSummary {
        id: id.into(),
        kind: kind.into(),
        path: "docs/spec.yaml".into(),
        source_hash: "sha256:0".into(),
        title: format!("{id} title"),
        presentation_title_key: None,
        summary: String::new(),
        description: None,
        status: None,
        priority: None,
        principles: vec![],
        rules: vec![],
        criteria: vec![],
        bindings: vec![],
        contracts: vec![],
        anchors: vec![],
    }
}

fn catalog() -> Vec<ItemSummary> {
    let mut req = item("REQ-1", "requirement");
    req.criteria = vec![CriterionSummary {
        anchor: "REQ-1#criterion.a".into(),
        kind: "behavior".into(),
        statement: "It works".into(),
        governed_by: vec![],
    }];
    let mut pol = item("POL-1", "policy");
    pol.rules = vec![RuleSummary {
        anchor: "POL-1#rule.r".into(),
        level: "must".into(),
        statement: "Keep it exact".into(),
        governed_by: vec![],
        applies_to_roles: vec![],
        enforcement: None,
    }];
    vec![req, pol]
}

#[test]
fn selectors_are_labelled_for_people() {
    assert_eq!(selector_label(&Selector::File), "file");
    assert_eq!(selector_label(&Selector::Symbol { name: "run".into() }), "symbol · run");
    assert_eq!(selector_label(&Selector::Operation { method: "GET".into(), path: "/api".into() }), "GET /api");
    assert_eq!(selector_label(&Selector::Marker { value: "m".into() }), "marker · m");
}

#[test]
fn claims_lead_to_their_destinations() {
    let verifies = TargetClaim::Verifies { criterion: "REQ-1#criterion.a".into(), covers: vec!["T1".into(), "T2".into()] };
    let d: Vec<(String, String, String)> = claim_destinations(&verifies)
        .into_iter()
        .map(|d| (d.relation, d.destination, d.label))
        .collect();
    assert_eq!(
        d,
        vec![
            ("verifies".to_string(), "REQ-1#criterion.a".to_string(), "verifies".to_string()),
            ("covers".to_string(), "T1".to_string(), "covers".to_string()),
            ("covers".to_string(), "T2".to_string(), "covers".to_string()),
        ]
    );
    let generated = TargetClaim::GeneratedFrom { targets: vec!["S".into()] };
    let d = claim_destinations(&generated);
    assert_eq!(d[0].relation, "generated-from");
    assert_eq!(d[0].label, "generated from");
}

#[test]
fn anchor_nodes_come_from_the_catalog_or_the_anchor_text() {
    let items = catalog();
    let rule = anchor_node_spec(&items, "POL-1#rule.r");
    assert_eq!(rule.kind, "rule");
    assert_eq!(rule.label, "Keep it exact");
    assert_eq!(rule.lane, "governance");
    assert_eq!(rule.item_id.as_deref(), Some("POL-1"));
    assert_eq!(rule.secondary_label.as_deref(), Some("POL-1 title"));
    assert_eq!(rule.metadata[0].key, "item_kind");
    assert_eq!(rule.metadata[0].value, "policy");
    let unknown = anchor_node_spec(&items, "PHIL-9#principle.p");
    assert_eq!(unknown.kind, "principle");
    assert_eq!(unknown.label, "PHIL-9#principle.p");
    assert_eq!(unknown.lane, "governance");
    assert_eq!(unknown.item_id.as_deref(), Some("PHIL-9"));
    assert!(unknown.metadata.is_empty());
    let bare = anchor_node_spec(&items, "free-text");
    assert_eq!(bare.kind, "anchor");
    assert_eq!(bare.lane, "specification");
    assert!(bare.item_id.is_none());
}

#[test]
fn anchor_nodes_are_added_once() {
    let items = catalog();
    let mut nodes = TraceNodes::new();
    add_anchor_trace_node(&mut nodes, &items, "REQ-1#criterion.a");
    add_anchor_trace_node(&mut nodes, &items, "REQ-1#criterion.a");
    assert_eq!(nodes.entries().len(), 1);
    assert_eq!(nodes.entries()[0].kind, "criterion");
    assert_eq!(nodes.entries()[0].label, "It works");
}

#[test]
fn verifying_targets_are_evidence() {
    let root = item("FEAT-1", "feature");
    let binding = BindingSummary {
        anchor: "FEAT-1#binding.impl".into(),
        role: "implementation".into(),
        facet: "code".into(),
        responsibility: "does it".into(),
        owns: vec![],
        targets: vec![],
    };
    let mut target = BindingTargetSummary {
        reference: "FEAT-1#binding.impl/target.t".into(),
        path: "src/lib.rs".into(),
        selector: "file".into(),
        adapter: "rust".into(),
        lifecycle: "present".into(),
        claims: vec![TargetClaim::Satisfies { criterion: "REQ-1#criterion.a".into() }],
    };
    let spec = target_node_spec(&root, &binding, &target, &Selector::File, "\"present\"", "{\"kind\":\"file\"}");
    assert_eq!(spec.kind, "implementation-target");
    assert_eq!(spec.lane, "implementation");
    assert_eq!(spec.label, "file");
    let keys: Vec<&str> = spec.metadata.iter().map(|m| m.key.as_str()).collect();
    assert_eq!(keys, vec!["adapter", "facet", "lifecycle", "path", "responsibility", "role", "selector"]);
    target.claims.push(TargetClaim::Evidences { anchor: "REQ-1#criterion.a".into() });
    let spec = target_node_spec(&root, &binding, &target, &Selector::File, "\"present\"", "{}");
    assert_eq!(spec.kind, "verification-target");
    assert_eq!(spec.lane, "evidence");
}

#[test]
fn shown_nodes_are_numbered_in_display_order() {
    let mut nodes = mitase_workbench_server::trace::TraceNodes::new();
    for (id, lane) in [("a", "implementation"), ("b", "specification")] {
        mitase_workbench_server::trace::trace_node(
            &mut nodes,
            id.into(),
            mitase_workbench_server::trace::TraceNodeSpec {
                kind: "item".into(),
                label: format!("label {id}"),
                secondary_label: None,
                lane: lane.into(),
                source_target: None,
                item_id: Some(id.into()),
                metadata: vec![],
            },
        );
    }
    let shown = mitase_workbench_server::trace_graph::numbered_nodes(&nodes, &vec!["b".to_string(), "a".to_string()]);
    assert_eq!(shown.len(), 2);
    assert_eq!((shown[0].id.as_str(), shown[0].stable_order, shown[0].label.as_str()), ("b", 0, "label b"));
    assert_eq!((shown[1].id.as_str(), shown[1].stable_order, shown[1].lane.as_str()), ("a", 1, "implementation"));
    assert_eq!(shown[1].item_id.as_deref(), Some("a"));
}
