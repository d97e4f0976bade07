use mitase_workbench_server::sorted::SortedStrings;
use mitase_workbench_server::trace::{
    add_trace_edge, trace_distances, trace_node, TraceEdges, TraceNodeSpec, TraceNodes,
};
use mitase_workbench_server::trace_view::{select_trace, semantic_ordered, TraceSelection};

fn spec(kind: &str, lane: &str) -> TraceNodeSpec {
    TraceNodeSpec {
        kind: kind.into(),
        label: kind.into(),
        secondary_label: None,
        lane: lane.into(),
        source_target: None,
        item_id: None,
        metadata: vec![],
    }
}

fn graph() -> (TraceNodes, TraceEdges) {
    let mut nodes = TraceNodes::new();
    trace_node(&mut nodes, "REQ-1".into(), spec("item", "specification"));
    trace_node(&mut nodes, "REQ-1#c".into(), spec("criterion", "specification"));
    trace_node(&mut nodes, "src/a.rs".into(), spec("target", "implementation"));
    trace_node(&mut nodes, "REQ-2".into(), spec("item", "specification"));
    trace_node(&mut nodes, "claim:1".into(), spec("claim", "evidence"));
    let mut edges = TraceEdges::new();
    add_trace_edge(&mut edges, "REQ-1", "REQ-1#c", "contains", "contains", None);
    add_trace_edge(&mut edges, "REQ-1#c", "src/a.rs", "satisfies", "satisfies", None);
    add_trace_edge(&mut edges, "REQ-2", "src/a.rs", "contains", "contains", None);
    add_trace_edge(&mut edges, "src/a.rs", "claim:1", "claim", "claim", Some("satisfies".into()));
    (nodes, edges)
}

fn evidence() -> SortedStrings {
    let mut e = SortedStrings::new();
    e.insert("REQ-1#c");
    e.insert("src/a.rs");
    e
}

fn select(exact: bool, node_budget: usize, edge_budget: usize) -> TraceSelection {
    let (nodes, edges) = graph();
    let distances = trace_distances("REQ-1", &edges, 8);
    select_trace(&nodes, &edges, &distances, "REQ-1", &evidence(), exact, node_budget, edge_budget)
}

fn ids(s: &SortedStrings) -> Vec<String> {
    s.to_vec()
}

#[test]
fn semantic_candidates_come_root_first_then_evidence_then_distance() {
    let (nodes, edges) = graph();
    let distances = trace_distances("REQ-1", &edges, 8);
    let ordered = semantic_ordered(nodes.entries(), &distances, "REQ-1", &evidence());
    let order: Vec<String> = ordered.iter().map(|k| k.id.iter().collect()).collect();
    assert_eq!(order, vec!["REQ-1", "REQ-1#c", "src/a.rs", "REQ-2"]);
    let priorities: Vec<usize> = ordered.iter().map(|k| k.priority).collect();
    assert_eq!(priorities, vec![0, 1, 1, 2]);
    let distances: Vec<usize> = ordered.iter().map(|k| k.distance).collect();
    assert_eq!(distances, vec![0, 1, 2, 3]);
}

#[test]
fn readable_view_keeps_the_budget_and_counts_what_is_hidden() {
    let view = select(false, 2, 8);
    assert_eq!(ids(&view.semantic_shown), vec!["REQ-1", "REQ-1#c"]);
    assert_eq!(ids(&view.shown), vec!["REQ-1", "REQ-1#c"]);
    assert_eq!(view.hidden_node_count, 2);
    let edge_ids: Vec<&str> = view.edges.iter().map(|e| e.id.as_str()).collect();
    assert_eq!(edge_ids, vec!["REQ-1|contains|REQ-1#c"]);
    assert_eq!(view.hidden_edge_count, 2);
    assert_eq!(view.claims, Vec::<String>::new());
}

#[test]
fn exact_view_adds_claims_while_the_budget_lasts() {
    let full = select(true, 4, 8);
    assert_eq!(full.claims, vec!["claim:1".to_string()]);
    assert!(!full.shown.contains("claim:1"));
    assert_eq!(full.hidden_node_count, 1);
    let roomy = select(true, 5, 8);
    assert!(roomy.shown.contains("claim:1"));
    assert_eq!(roomy.hidden_node_count, 0);
    assert_eq!(roomy.edges.len(), 4);
    assert_eq!(roomy.hidden_edge_count, 0);
    assert!(roomy.edges.iter().any(|e| e.exact_claim.is_some()));
}

#[test]
fn edge_budget_bounds_the_shown_edges() {
    let view = select(true, 5, 2);
    let edge_ids: Vec<&str> = view.edges.iter().map(|e| e.id.as_str()).collect();
    assert_eq!(edge_ids, vec!["REQ-1#c|satisfies|src/a.rs", "REQ-1|contains|REQ-1#c"]);
    assert_eq!(view.hidden_edge_count, 2);
}

#[test]
fn root_is_shown_even_when_the_budget_is_tight() {
    let view = select(false, 1, 8);
    assert_eq!(ids(&view.semantic_shown), vec!["REQ-1"]);
    assert_eq!(view.hidden_node_count, 3);
    for budget in [1usize, 2, 3, 8] {
        for exact in [false, true] {
            let v = select(exact, budget, budget);
            assert!(v.shown.contains("REQ-1"));
            assert!(v.shown.len() <= budget);
            assert!(v.edges.len() <= budget);
        }
    }
}

#[test]
fn shown_nodes_are_listed_by_lane_kind_and_identity() {
    let view = select(false, 8, 8);
    let order: Vec<String> = view.display.iter().map(|k| k.id.iter().collect()).collect();
    assert_eq!(order, vec!["REQ-1#c", "REQ-1", "REQ-2", "src/a.rs"]);
}

#[test]
fn readable_and_exact_views_agree_apart_from_claims() {
    for budget in [1usize, 2, 3, 5, 10] {
        let readable = select(false, budget, 20);
        let exact = select(true, budget, 20);
        let mut r: Vec<String> = readable.shown.to_vec();
        let mut e: Vec<String> = exact.shown.to_vec().into_iter().filter(|id| id != "claim:1").collect();
        r.sort();
        e.sort();
        assert_eq!(r, e, "budget {budget}");
        let readable_edges: Vec<String> = readable.edges.iter().map(|x| x.id.clone()).collect();
        let exact_edges: Vec<String> = exact
            .edges
            .iter()
            .filter(|x| x.from != "claim:1" && x.to != "claim:1")
            .map(|x| x.id.clone())
            .collect();
        assert_eq!(readable_edges, exact_edges, "budget {budget}");
    }
}
