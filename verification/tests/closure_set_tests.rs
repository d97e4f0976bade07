use mitase_workbench_server::catalog::{BindingSummary, BindingTargetSummary, ItemSummary, TargetClaim};
use mitase_workbench_server::closure_set::{
    closure_evidence, specification_closures, CriterionSources, TraceHiddenCounts,
};
use mitase_workbench_server::closures::TraceDiagnosticView;
use mitase_workbench_server::readiness::{
    readiness_view, ReadinessAxis, ReadinessLevel, ReadinessReport, ReadinessSubject,
};
use mitase_workbench_server::closure_set::{closure_trace_selection, specification_trace_view};
use mitase_workbench_server::projection::TraceSettings;
use mitase_workbench_server::sorted::SortedStrings;
use mitase_workbench_server::trace::{add_trace_edge, trace_node, TraceEdges, TraceNodeSpec, TraceNodes};

fn target(reference: &str, claims: Vec<TargetClaim>) -> BindingTargetSummary {
    BindingTargetSummary {
        reference: reference.into(),
        path: "src/lib.rs".into(),
        selector: "file".into(),
        adapter: "rust".into(),
        lifecycle: "present".into(),
        claims,
    }
}

fn feature() -> ItemSummary {
    ItemSummary {
        id: "FEAT-1".into(),
        kind: "feature".into(),
        path: "docs/features.yaml".into(),
        source_hash: "sha256:0".into(),
        title: "Feature".into(),
        presentation_title_key: None,
        summary: "A feature".into(),
        description: None,
        status: None,
        priority: None,
        principles: vec![],
        rules: vec![],
        criteria: vec![],
        bindings: vec![BindingSummary {
            anchor: "FEAT-1#binding.impl".into(),
            role: "implementation".into(),
            facet: "code".into(),
            responsibility: "does it".into(),
            owns: vec![],
            targets: vec![
                target(
                    "FEAT-1#binding.impl/target.code",
                    vec![TargetClaim::Satisfies { criterion: "REQ-1#criterion.a".into() }],
                ),
                target(
                    "FEAT-1#binding.impl/target.test",
                    vec![TargetClaim::Verifies {
                        criterion: "REQ-1#criterion.a".into(),
                        covers: vec![],
                    }],
                ),
            ],
        }],
        contracts: vec![],
        anchors: vec![],
    }
}

fn axis(blockers: &[&str], subjects: Vec<ReadinessSubject>) -> ReadinessAxis {
    ReadinessAxis {
        required: 0,
        blockers: blockers.iter().map(|b| b.to_string()).collect(),
        subjects,
    }
}

fn readiness() -> ReadinessReport {
    ReadinessReport {
        target: ReadinessLevel::Traceable,
        inventory: axis(&[], vec![]),
        ownership: axis(
            &[],
            vec![ReadinessSubject {
                id: "REQ-1#criterion.b".into(),
                scope_id: "x".into(),
                blockers: vec!["owner missing".into()],
            }],
        ),
        seedability: axis(&[], vec![]),
        workability: axis(&[], vec![]),
        verification: axis(&[], vec![]),
        closed_loop: axis(&[], vec![]),
        execution_state: "idle".into(),
    }
}

fn sources(implementation: &[&str], diagnostics: Vec<TraceDiagnosticView>) -> CriterionSources {
    CriterionSources {
        index_implementation: implementation.iter().map(|s| s.to_string()).collect(),
        index_verification: vec![],
        diagnostics,
    }
}

fn criteria() -> SortedStrings {
    let mut s = SortedStrings::new();
    s.insert("REQ-1#criterion.b");
    s.insert("REQ-1#criterion.a");
    s
}

#[test]
fn closures_come_in_criterion_order_with_their_own_evidence() {
    let view = readiness_view(readiness());
    let diagnostic = TraceDiagnosticView {
        identity: "rule.x".into(),
        severity: "error".into(),
        message: "criterion b is unverified".into(),
        reason: None,
    };
    let (closures, hidden) = specification_closures(
        &criteria(),
        vec![sources(&[], vec![]), sources(&["OTHER#target.z"], vec![diagnostic])],
        &vec![feature()],
        &view,
        "REQ-1",
        None,
        10,
    );
    assert_eq!(closures.len(), 2);
    assert_eq!(closures[0].criterion, "REQ-1#criterion.a");
    assert_eq!(closures[0].implementation_targets, vec!["FEAT-1#binding.impl/target.code"]);
    assert_eq!(closures[0].verification_targets, vec!["FEAT-1#binding.impl/target.test"]);
    assert_eq!(closures[0].state, "declaration-only");
    assert_eq!(closures[0].runtime_status, "unavailable");
    assert_eq!(closures[1].criterion, "REQ-1#criterion.b");
    assert_eq!(closures[1].implementation_targets, vec!["OTHER#target.z"]);
    assert_eq!(closures[1].state, "verification-missing");
    assert_eq!(closures[1].readiness_blockers, vec!["owner missing"]);
    assert_eq!(
        closures[1].reasons,
        vec![
            "No exact verification target covers this criterion.",
            "A claim points at a target that is not in the canonical projection.",
            "owner missing",
            "criterion b is unverified",
        ]
    );
    assert_eq!(hidden.closures, 0);
    assert_eq!(hidden.targets, 0);
}

#[test]
fn closures_beyond_the_budget_are_counted_as_hidden() {
    let view = readiness_view(readiness());
    let (closures, hidden) = specification_closures(
        &criteria(),
        vec![sources(&[], vec![]), sources(&["OTHER#target.z"], vec![])],
        &vec![feature()],
        &view,
        "REQ-1",
        None,
        1,
    );
    assert_eq!(closures.len(), 1);
    assert_eq!(closures[0].criterion, "REQ-1#criterion.a");
    assert_eq!(closures[0].implementation_targets, vec!["FEAT-1#binding.impl/target.code"]);
    assert!(closures[0].verification_targets.is_empty());
    assert_eq!(closures[0].hidden_target_count, 1);
    assert_eq!(hidden.closures, 1);
    // One target cut from the first closure, one target of the hidden one.
    assert_eq!(hidden.targets, 2);
}

#[test]
fn closure_evidence_names_criteria_and_targets() {
    let view = readiness_view(readiness());
    let (closures, _) = specification_closures(
        &criteria(),
        vec![sources(&[], vec![]), sources(&["OTHER#target.z"], vec![])],
        &vec![feature()],
        &view,
        "REQ-1",
        None,
        10,
    );
    assert_eq!(
        closure_evidence(&closures).to_vec(),
        vec![
            "FEAT-1#binding.impl/target.code",
            "FEAT-1#binding.impl/target.test",
            "OTHER#target.z",
            "REQ-1#criterion.a",
            "REQ-1#criterion.b",
        ]
    );
}

#[test]
fn a_trace_is_truncated_when_anything_is_hidden() {
    let none = TraceHiddenCounts {
        nodes: 0,
        edges: 0,
        related: 0,
        related_claims: 0,
        closures: 0,
        closure_targets: 0,
        reasons: 0,
        readiness: 0,
        diagnostics: 0,
    };
    assert!(!none.truncated());
    assert!(TraceHiddenCounts { diagnostics: 1, ..none }.truncated());
    assert!(TraceHiddenCounts { edges: 3, ..none }.truncated());
}

fn node_spec(kind: &str) -> TraceNodeSpec {
    TraceNodeSpec {
        kind: kind.into(),
        label: kind.into(),
        secondary_label: None,
        lane: "specification".into(),
        source_target: None,
        item_id: None,
        metadata: vec![],
    }
}

#[test]
fn the_trace_takes_closure_evidence_first() {
    let mut nodes = TraceNodes::new();
    trace_node(&mut nodes, "REQ-1".into(), node_spec("item"));
    trace_node(&mut nodes, "REQ-1#criterion.a".into(), node_spec("criterion"));
    trace_node(&mut nodes, "REQ-9".into(), node_spec("item"));
    let mut edges = TraceEdges::new();
    add_trace_edge(&mut edges, "REQ-1", "REQ-9", "contains", "contains", None);
    add_trace_edge(&mut edges, "REQ-1", "REQ-1#criterion.a", "contains", "contains", None);
    let view = readiness_view(readiness());
    let (closures, _) = specification_closures(
        &criteria(),
        vec![sources(&[], vec![]), sources(&[], vec![])],
        &vec![feature()],
        &view,
        "REQ-1",
        None,
        10,
    );
    let settings = TraceSettings { mode: "readable".into(), depth: 1, node_budget: 2, edge_budget: 8 };
    let selection = closure_trace_selection(&nodes, &edges, "REQ-1", &settings, &closures);
    // With room for two nodes, the criterion named by a closure wins over
    // the other item at the same distance.
    assert_eq!(selection.shown.to_vec(), vec!["REQ-1", "REQ-1#criterion.a"]);
    assert_eq!(selection.hidden_node_count, 1);
}

#[test]
fn the_trace_view_numbers_its_nodes_and_reports_truncation() {
    let mut nodes = TraceNodes::new();
    trace_node(&mut nodes, "FEAT-1".into(), node_spec("item"));
    trace_node(&mut nodes, "REQ-1#criterion.a".into(), node_spec("criterion"));
    trace_node(&mut nodes, "REQ-9".into(), node_spec("item"));
    let mut edges = TraceEdges::new();
    add_trace_edge(&mut edges, "FEAT-1", "REQ-9", "contains", "contains", None);
    add_trace_edge(&mut edges, "FEAT-1", "REQ-1#criterion.a", "claims", "claims", None);
    let view = readiness_view(readiness());
    let settings = TraceSettings { mode: "readable".into(), depth: 2, node_budget: 8, edge_budget: 8 };
    let mut one = SortedStrings::new();
    one.insert("REQ-1#criterion.a");
    let trace = specification_trace_view(
        &nodes,
        &edges,
        &feature(),
        &settings,
        &one,
        vec![sources(&[], vec![])],
        &vec![feature()],
        &view,
        None,
    );
    assert_eq!(trace.root_item_id, "FEAT-1");
    assert_eq!(trace.mode, "readable");
    let ids: Vec<(&str, usize)> = trace.nodes.iter().map(|n| (n.id.as_str(), n.stable_order)).collect();
    assert_eq!(ids, vec![("REQ-1#criterion.a", 0), ("FEAT-1", 1), ("REQ-9", 2)]);
    assert_eq!(trace.edges.len(), 2);
    assert_eq!(trace.closures.len(), 1);
    assert_eq!(trace.closures[0].state, "declaration-only");
    assert_eq!(trace.hidden.nodes, 0);
    assert!(!trace.truncated);
}

fn claim_graph() -> (TraceNodes, TraceEdges) {
    let mut nodes = TraceNodes::new();
    trace_node(&mut nodes, "FEAT-1".into(), node_spec("item"));
    trace_node(&mut nodes, "REQ-1#criterion.a".into(), node_spec("criterion"));
    trace_node(&mut nodes, "claim:1".into(), node_spec("claim"));
    let mut edges = TraceEdges::new();
    add_trace_edge(&mut edges, "FEAT-1", "REQ-1#criterion.a", "claims", "claims", None);
    add_trace_edge(&mut edges, "FEAT-1", "claim:1", "claim", "claim", Some("satisfies".into()));
    (nodes, edges)
}

fn view_in(mode: &str) -> mitase_workbench_server::closure_set::SpecificationTraceView {
    view_with(mode, 2, 8, 8)
}

fn view_with(
    mode: &str,
    depth: usize,
    node_budget: usize,
    edge_budget: usize,
) -> mitase_workbench_server::closure_set::SpecificationTraceView {
    let (nodes, edges) = claim_graph();
    let view = readiness_view(readiness());
    let settings = TraceSettings { mode: mode.into(), depth, node_budget, edge_budget };
    let mut one = SortedStrings::new();
    one.insert("REQ-1#criterion.a");
    specification_trace_view(
        &nodes,
        &edges,
        &feature(),
        &settings,
        &one,
        vec![sources(&[], vec![])],
        &vec![feature()],
        &view,
        None,
    )
}

#[test]
fn readable_and_exact_trace_views_agree_apart_from_claims() {
    let readable = view_in("readable");
    let exact = view_in("exact");
    let mut r: Vec<&str> = readable.nodes.iter().map(|n| n.id.as_str()).collect();
    let mut e: Vec<&str> = exact.nodes.iter().filter(|n| n.kind != "claim").map(|n| n.id.as_str()).collect();
    r.sort();
    e.sort();
    assert_eq!(r, e);
    assert!(exact.nodes.iter().any(|n| n.kind == "claim"));
    let re: Vec<&str> = readable.edges.iter().map(|x| x.id.as_str()).collect();
    let ee: Vec<&str> = exact
        .edges
        .iter()
        .filter(|x| x.from != "claim:1" && x.to != "claim:1")
        .map(|x| x.id.as_str())
        .collect();
    assert_eq!(re, ee);
}

#[test]
fn a_trace_view_is_the_same_when_drawn_twice() {
    let a = view_in("exact");
    let b = view_in("exact");
    let ids = |v: &mitase_workbench_server::closure_set::SpecificationTraceView| -> Vec<(String, usize)> {
        v.nodes.iter().map(|n| (n.id.clone(), n.stable_order)).collect()
    };
    assert_eq!(ids(&a), ids(&b));
    let edges = |v: &mitase_workbench_server::closure_set::SpecificationTraceView| -> Vec<String> {
        v.edges.iter().map(|e| e.id.clone()).collect()
    };
    assert_eq!(edges(&a), edges(&b));
}

#[test]
fn specification_trace_is_deterministic_and_preserves_canonical_claims() {
    let first = view_with("exact", 4, 80, 160);
    let second = view_with("exact", 4, 80, 160);
    let nodes = |v: &mitase_workbench_server::closure_set::SpecificationTraceView| -> Vec<(String, String, usize)> {
        v.nodes.iter().map(|n| (n.id.clone(), n.kind.clone(), n.stable_order)).collect()
    };
    let edges = |v: &mitase_workbench_server::closure_set::SpecificationTraceView| -> Vec<(String, Option<String>)> {
        v.edges.iter().map(|e| (e.id.clone(), e.exact_claim.clone())).collect()
    };
    assert_eq!(nodes(&first), nodes(&second));
    assert_eq!(edges(&first), edges(&second));
    assert_eq!(first.truncated, second.truncated);
    assert_eq!(first.root_item_id, "FEAT-1");
    assert_eq!(first.mode, "exact");
    assert!(first.nodes.iter().any(|node| node.kind == "claim"));
    assert!(first.edges.iter().any(|edge| edge.exact_claim.is_some()));
    assert_eq!(first.closures.len(), 1);
    assert_eq!(first.closures[0].state, "declaration-only");
    for mode in ["readable", "exact"] {
        let bounded = view_with(mode, 8, 8, 8);
        assert!(bounded.nodes.len() <= 8, "{mode} node budget exceeded");
        assert!(bounded.edges.len() <= 8, "{mode} edge budget exceeded");
    }
    let readable = view_with("readable", 8, 20, 20);
    let exact = view_with("exact", 8, 20, 20);
    let readable_nodes: std::collections::BTreeSet<String> = readable.nodes.iter().map(|n| n.id.clone()).collect();
    let exact_semantic: std::collections::BTreeSet<String> =
        exact.nodes.iter().filter(|n| n.kind != "claim").map(|n| n.id.clone()).collect();
    assert_eq!(readable_nodes, exact_semantic);
    let unclaimed = |v: &mitase_workbench_server::closure_set::SpecificationTraceView| -> std::collections::BTreeSet<String> {
        v.edges
            .iter()
            .filter(|e| {
                v.nodes.iter().find(|n| n.id == e.from).is_none_or(|n| n.kind != "claim")
                    && v.nodes.iter().find(|n| n.id == e.to).is_none_or(|n| n.kind != "claim")
            })
            .map(|e| e.id.clone())
            .collect()
    };
    assert_eq!(unclaimed(&readable), unclaimed(&exact));
}
