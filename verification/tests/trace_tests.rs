use mitase_workbench_server::trace::{
    add_trace_edge, readiness_identity_matches, trace_distances, trace_lane_rank, trace_node,
    TraceEdges, TraceNodeSpec, TraceNodes,
};

fn spec(kind: &str, lane: &str) -> TraceNodeSpec {
    TraceNodeSpec {
        kind: kind.into(),
        label: kind.into(),
        secondary_label: None,
        lane: lane.into(),
        source_target: None,
        item_id: None,
        metadata: vec![],
    }
}

#[test]
fn nodes_are_kept_once_in_identity_order() {
    let mut nodes = TraceNodes::new();
    trace_node(&mut nodes, "b".into(), spec("item", "specification"));
    trace_node(&mut nodes, "a".into(), spec("criterion", "specification"));
    trace_node(&mut nodes, "b".into(), spec("changed", "implementation"));
    let ids: Vec<&str> = nodes.entries().iter().map(|n| n.id.as_str()).collect();
    assert_eq!(ids, vec!["a", "b"]);
    assert_eq!(nodes.entries()[1].kind, "item");
}

#[test]
fn edges_are_identified_by_their_endpoints_and_relation() {
    let mut edges = TraceEdges::new();
    add_trace_edge(&mut edges, "a", "b", "contains", "contains", None);
    add_trace_edge(&mut edges, "a", "b", "contains", "again", None);
    add_trace_edge(&mut edges, "b", "c", "verifies", "verifies", Some("claim".into()));
    let ids: Vec<&str> = edges.entries().iter().map(|e| e.id.as_str()).collect();
    assert_eq!(ids, vec!["a|contains|b", "b|verifies|c"]);
    assert_eq!(edges.entries()[0].display_label, "contains");
}

#[test]
fn distances_follow_edges_both_ways_up_to_the_depth() {
    let mut edges = TraceEdges::new();
    add_trace_edge(&mut edges, "root", "x", "contains", "contains", None);
    add_trace_edge(&mut edges, "y", "x", "verifies", "verifies", None);
    add_trace_edge(&mut edges, "y", "z", "covers", "covers", None);
    let near = trace_distances("root", &edges, 1);
    let mut found: Vec<(String, usize)> = near.iter().map(|d| (d.node.clone(), d.distance)).collect();
    found.sort();
    assert_eq!(found, vec![("root".to_string(), 0), ("x".to_string(), 1)]);
    let far = trace_distances("root", &edges, 8);
    let mut found: Vec<(String, usize)> = far.iter().map(|d| (d.node.clone(), d.distance)).collect();
    found.sort();
    assert_eq!(
        found,
        vec![
            ("root".to_string(), 0),
            ("x".to_string(), 1),
            ("y".to_string(), 2),
            ("z".to_string(), 3),
        ]
    );
}

#[test]
fn lanes_and_readiness_identities() {
    assert!(trace_lane_rank("specification") < trace_lane_rank("implementation"));
    assert!(readiness_identity_matches("criterion:REQ-1#criterion.a", "REQ-1#criterion.a"));
    assert!(readiness_identity_matches("item:REQ-1", "REQ-1"));
    assert!(readiness_identity_matches("REQ-2,REQ-1|x", "REQ-1"));
    assert!(!readiness_identity_matches("REQ-10", "REQ-1"));
}

fn distances_of(edges: &[(&str, &str)], root: &str, depth: usize) -> Vec<(String, usize)> {
    let mut graph = TraceEdges::new();
    for (from, to) in edges {
        add_trace_edge(&mut graph, from, to, "rel", "rel", None);
    }
    let mut d: Vec<(String, usize)> = trace_distances(root, &graph, depth)
        .into_iter()
        .map(|x| (x.node, x.distance))
        .collect();
    d.sort();
    d
}

#[test]
fn root_neighbours_are_at_distance_one() {
    let d = distances_of(&[("a", "b"), ("a", "c"), ("c", "b")], "a", 2);
    assert_eq!(d, vec![("a".into(), 0), ("b".into(), 1), ("c".into(), 1)]);
}

#[test]
fn the_search_takes_the_latest_found_node_first() {
    let d = distances_of(&[("a", "x"), ("a", "z"), ("z", "y"), ("y", "w"), ("x", "w")], "a", 3);
    assert_eq!(
        d,
        vec![("a".into(), 0), ("w".into(), 3), ("x".into(), 1), ("y".into(), 2), ("z".into(), 1)]
    );
}
