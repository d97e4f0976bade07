use mitase_workbench_server::catalog::{ItemSummary, TargetClaim};
use mitase_workbench_server::trace::{TraceEdges, TraceNodeSpec, TraceNodes};
use mitase_workbench_server::trace_build::{
    add_claim_trace, add_target_or_anchor_trace_node, TargetNodeSource,
};

const TARGET: &str = "FEAT-1#binding.b/target.t";
const COVERED: &str = "FEAT-1#binding.b/target.u";
const CRITERION: &str = "REQ-1#criterion.a";

fn sources() -> Vec<TargetNodeSource> {
    vec![TargetNodeSource {
        reference: COVERED.into(),
        spec: TraceNodeSpec {
            kind: "implementation-target".into(),
            label: "file".into(),
            secondary_label: Some("src/u.rs".into()),
            lane: "implementation".into(),
            source_target: Some(COVERED.into()),
            item_id: Some("FEAT-1".into()),
            metadata: vec![],
        },
    }]
}

fn claim() -> TargetClaim {
    TargetClaim::Verifies { criterion: CRITERION.into(), covers: vec![COVERED.into()] }
}

fn node_ids(nodes: &TraceNodes) -> Vec<String> {
    nodes.entries().iter().map(|n| n.id.clone()).collect()
}

fn edge_ids(edges: &TraceEdges) -> Vec<String> {
    edges.entries().iter().map(|e| e.id.clone()).collect()
}

#[test]
fn exact_claim_trace_adds_the_claim_node_and_both_edge_sets() {
    let items: Vec<ItemSummary> = vec![];
    let mut nodes = TraceNodes::new();
    let mut edges = TraceEdges::new();
    add_claim_trace(
        &mut nodes,
        &mut edges,
        &items,
        &sources(),
        true,
        TARGET,
        0,
        &claim(),
        Some("{\"verifies\":{}}".into()),
    );
    let claim_node = format!("{TARGET}#claim.0");
    let ids = node_ids(&nodes);
    assert!(ids.contains(&claim_node));
    assert!(ids.contains(&CRITERION.to_string()));
    assert!(ids.contains(&COVERED.to_string()));
    assert_eq!(ids.len(), 3);
    let claim_view = nodes.entries().iter().find(|n| n.id == claim_node).unwrap();
    assert_eq!(claim_view.kind, "claim");
    assert_eq!(claim_view.label, "verifies");
    assert_eq!(claim_view.lane, "specification");
    assert_eq!(claim_view.secondary_label.as_deref(), Some("exact canonical claim"));
    assert_eq!(claim_view.metadata.len(), 1);
    assert_eq!(claim_view.metadata[0].key, "claim");
    assert_eq!(claim_view.metadata[0].value, "{\"verifies\":{}}");
    let covered = nodes.entries().iter().find(|n| n.id == COVERED).unwrap();
    assert_eq!(covered.kind, "implementation-target");
    let edges_now = edge_ids(&edges);
    for expected in [
        format!("{TARGET}|claim|{claim_node}"),
        format!("{TARGET}|verifies|{CRITERION}"),
        format!("{TARGET}|covers|{COVERED}"),
        format!("{claim_node}|verifies|{CRITERION}"),
        format!("{claim_node}|covers|{COVERED}"),
    ] {
        assert!(edges_now.contains(&expected), "missing edge {expected}");
    }
    assert_eq!(edges_now.len(), 5);
}

#[test]
fn readable_claim_trace_has_no_claim_node() {
    let items: Vec<ItemSummary> = vec![];
    let mut nodes = TraceNodes::new();
    let mut edges = TraceEdges::new();
    add_claim_trace(&mut nodes, &mut edges, &items, &sources(), false, TARGET, 3, &claim(), None);
    let ids = node_ids(&nodes);
    assert_eq!(ids.len(), 2);
    assert!(!ids.iter().any(|id| id.contains("#claim.")));
    let edges_now = edge_ids(&edges);
    assert_eq!(
        edges_now,
        vec![format!("{TARGET}|covers|{COVERED}"), format!("{TARGET}|verifies|{CRITERION}")]
    );
    assert!(edges.entries().iter().all(|e| e.exact_claim.is_none()));
}

#[test]
fn a_known_node_is_not_replaced() {
    let items: Vec<ItemSummary> = vec![];
    let mut nodes = TraceNodes::new();
    add_target_or_anchor_trace_node(&mut nodes, &items, &sources(), COVERED);
    add_target_or_anchor_trace_node(&mut nodes, &items, &vec![], COVERED);
    assert_eq!(nodes.entries().len(), 1);
    assert_eq!(nodes.entries()[0].kind, "implementation-target");
}
