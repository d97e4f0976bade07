//! Growing a trace graph from the claims of binding targets: the nodes the
//! claims lead to and the edges that lead there.
use vstd::prelude::*;
use crate::catalog::{ItemSummary, TargetClaim};
use crate::text::{append, owned, usize_to_decimal};
use crate::trace::{
    add_trace_edge, edge_id, edge_ids, node_from_spec, node_ids, trace_node, TraceEdgeView, TraceEdges,
    TraceMetadataEntry, TraceNodeSpec, TraceNodeView, TraceNodes,
};
use crate::trace_graph::{
    add_anchor_trace_node, anchor_node, claim_destinations, destinations_model, node_model, node_spec_model,
    spec_claim_destinations, NodeSpecModel,
};

verus! {

/// The node of one binding target, made beforehand (see
/// `trace_graph::target_node_spec`).
#[derive(Debug, Clone)]
pub struct TargetNodeSource {
    pub reference: String,
    pub spec: TraceNodeSpec,
}

/// Whether the graph has a node with identity `id`.
pub open spec fn has_node(nodes: Seq<TraceNodeView>, id: Seq<char>) -> bool {
    node_ids(nodes).contains(id)
}

/// Whether the graph has an edge with identity `id`.
pub open spec fn has_edge(edges: Seq<TraceEdgeView>, id: Seq<char>) -> bool {
    edge_ids(edges).contains(id)
}

/// Every node of `a` is still a node of `b`, as it was.
pub open spec fn nodes_kept(a: Seq<TraceNodeView>, b: Seq<TraceNodeView>) -> bool {
    forall|n: TraceNodeView| a.contains(n) ==> #[trigger] b.contains(n)
}

/// Every edge of `a` is still an edge of `b`, as it was.
pub open spec fn edges_kept(a: Seq<TraceEdgeView>, b: Seq<TraceEdgeView>) -> bool {
    forall|e: TraceEdgeView| a.contains(e) ==> #[trigger] b.contains(e)
}

/// The node a graph without `id` gains for it: made from `spec`.
pub open spec fn gains_node(a: Seq<TraceNodeView>, b: Seq<TraceNodeView>, id: Seq<char>, spec: NodeSpecModel) -> bool {
    !has_node(a, id) ==> exists|n: TraceNodeView| b.contains(n) && n.id@ == id && node_model(n) == spec
}

/// The first prepared target node for `reference`.
pub open spec fn first_source(sources: Seq<TargetNodeSource>, reference: Seq<char>) -> Option<int>
    decreases sources.len(),
{
    if sources.len() == 0 {
        None
    } else {
        match first_source(sources.drop_last(), reference) {
            Some(i) => Some(i),
            None => if sources.last().reference@ == reference {
                Some(sources.len() - 1)
            } else {
                None
            },
        }
    }
}

/// The node `reference` gets: the prepared node of the binding target with
/// that reference, else the node of the anchor.
pub open spec fn target_or_anchor_node(
    items: Seq<ItemSummary>,
    sources: Seq<TargetNodeSource>,
    reference: Seq<char>,
) -> NodeSpecModel {
    match first_source(sources, reference) {
        Some(i) => node_spec_model(sources[i].spec),
        None => anchor_node(items, reference),
    }
}

/// The identity of the node of claim `index` of `target`.
pub open spec fn claim_node_id(target: Seq<char>, index: nat) -> Seq<char> {
    target + "#claim."@ + crate::text::decimal(index)
}

/// The node of an exact claim: labelled by where the claim first leads,
/// with the claim's canonical form as metadata.
pub open spec fn claim_node(claim: TargetClaim, exact_claim: Option<Seq<char>>) -> NodeSpecModel {
    let d = spec_claim_destinations(claim);
    NodeSpecModel {
        kind: "claim"@,
        label: if d.len() > 0 { d[0].2 } else { "claim"@ },
        secondary_label: Some("exact canonical claim"@),
        lane: "specification"@,
        source_target: None,
        item_id: None,
        metadata: seq![("claim"@, match exact_claim { Some(c) => c, None => Seq::empty() })],
    }
}

// ---------------------------------------------------------------------------

proof fn lemma_node_added(old_nodes: Seq<TraceNodeView>, new_nodes: Seq<TraceNodeView>, id: String, spec: TraceNodeSpec)
    requires
        (exists|k: int| 0 <= k < old_nodes.len() && old_nodes[k].id@ == id@) ==> new_nodes == old_nodes,
        (forall|k: int| 0 <= k < old_nodes.len() ==> old_nodes[k].id@ != id@) ==> exists|p: int|
            0 <= p <= old_nodes.len() && new_nodes == old_nodes.insert(p, node_from_spec(id, spec)),
    ensures
        has_node(new_nodes, id@),
        nodes_kept(old_nodes, new_nodes),
        gains_node(old_nodes, new_nodes, id@, node_spec_model(spec)),
{
    if exists|k: int| 0 <= k < old_nodes.len() && old_nodes[k].id@ == id@ {
        let k = choose|k: int| 0 <= k < old_nodes.len() && old_nodes[k].id@ == id@;
        assert(node_ids(new_nodes)[k] == id@);
    } else {
        let p = choose|p: int|
            0 <= p <= old_nodes.len() && new_nodes == old_nodes.insert(p, node_from_spec(id, spec));
        let n = node_from_spec(id, spec);
        assert(new_nodes[p] == n);
        assert(node_ids(new_nodes)[p] == id@);
        assert(node_model(n) =~= node_spec_model(spec));
        assert(new_nodes.contains(n));
        assert forall|m: TraceNodeView| old_nodes.contains(m) implies #[trigger] new_nodes.contains(m) by {
            let j = choose|j: int| 0 <= j < old_nodes.len() && old_nodes[j] == m;
            if j < p {
                assert(new_nodes[j] == m);
            } else {
                assert(new_nodes[j + 1] == m);
            }
        }
    }
}

proof fn lemma_has_node_kept(a: Seq<TraceNodeView>, b: Seq<TraceNodeView>, id: Seq<char>)
    requires
        nodes_kept(a, b),
        has_node(a, id),
    ensures
        has_node(b, id),
{
    let k = choose|k: int| 0 <= k < node_ids(a).len() && node_ids(a)[k] == id;
    assert(a.contains(a[k]));
    assert(b.contains(a[k]));
    let j = choose|j: int| 0 <= j < b.len() && b[j] == a[k];
    assert(node_ids(b)[j] == id);
}

proof fn lemma_has_edge_kept(a: Seq<TraceEdgeView>, b: Seq<TraceEdgeView>, id: Seq<char>)
    requires
        edges_kept(a, b),
        has_edge(a, id),
    ensures
        has_edge(b, id),
{
    let k = choose|k: int| 0 <= k < edge_ids(a).len() && edge_ids(a)[k] == id;
    assert(a.contains(a[k]));
    assert(b.contains(a[k]));
    let j = choose|j: int| 0 <= j < b.len() && b[j] == a[k];
    assert(edge_ids(b)[j] == id);
}

/// Adds the node `id` unless the graph has it.
fn put_node(nodes: &mut TraceNodes, id: String, spec: TraceNodeSpec)
    ensures
        has_node(final(nodes)@, id@),
        nodes_kept(old(nodes)@, final(nodes)@),
        gains_node(old(nodes)@, final(nodes)@, id@, node_spec_model(spec)),
{
    let ghost before = nodes@;
    let ghost i = id;
    let ghost s = spec;
    trace_node(nodes, id, spec);
    proof {
        lemma_node_added(before, nodes@, i, s);
    }
}

/// Adds the edge `from --relation--> to` unless the graph has it.
fn put_edge(edges: &mut TraceEdges, from: &str, to: &str, relation: &str, label: &str, exact_claim: Option<String>)
    ensures
        has_edge(final(edges)@, edge_id(from@, relation@, to@)),
        edges_kept(old(edges)@, final(edges)@),
{
    let ghost before = edges@;
    let ghost id = edge_id(from@, relation@, to@);
    add_trace_edge(edges, from, to, relation, label, exact_claim);
    proof {
        if exists|k: int| 0 <= k < before.len() && before[k].id@ == id {
            let k = choose|k: int| 0 <= k < before.len() && before[k].id@ == id;
            assert(edge_ids(edges@)[k] == id);
        } else {
            let (p, e) = choose|p: int, e: TraceEdgeView|
                0 <= p <= before.len() && edges@ == before.insert(p, e) && e.id@ == id;
            assert(edge_ids(edges@)[p] == id);
            assert forall|m: TraceEdgeView| before.contains(m) implies #[trigger] edges@.contains(m) by {
                let j = choose|j: int| 0 <= j < before.len() && before[j] == m;
                if j < p {
                    assert(edges@[j] == m);
                } else {
                    assert(edges@[j + 1] == m);
                }
            }
        }
    }
}

fn copy_opt(o: &Option<String>) -> (r: Option<String>)
    ensures
        crate::trace_graph::opt_view(r) == crate::trace_graph::opt_view(*o),
{
    match o {
        Some(s) => Some(owned(s.as_str())),
        None => None,
    }
}

fn copy_spec(s: &TraceNodeSpec) -> (r: TraceNodeSpec)
    ensures
        node_spec_model(r) == node_spec_model(*s),
{
    let mut metadata: Vec<TraceMetadataEntry> = Vec::new();
    let mut k: usize = 0;
    while k < s.metadata.len()
        invariant
            k <= s.metadata.len(),
            metadata@.len() == k,
            forall|j: int|
                0 <= j < k ==> #[trigger] metadata@[j].key@ == s.metadata@[j].key@ && metadata@[j].value@
                    == s.metadata@[j].value@,
        decreases s.metadata.len() - k,
    {
        metadata.push(
            TraceMetadataEntry {
                key: owned(s.metadata[k].key.as_str()),
                value: owned(s.metadata[k].value.as_str()),
            },
        );
        k = k + 1;
    }
    let r = TraceNodeSpec {
        kind: owned(s.kind.as_str()),
        label: owned(s.label.as_str()),
        secondary_label: copy_opt(&s.secondary_label),
        lane: owned(s.lane.as_str()),
        source_target: copy_opt(&s.source_target),
        item_id: copy_opt(&s.item_id),
        metadata,
    };
    proof {
        assert(node_spec_model(r).metadata =~= node_spec_model(*s).metadata);
    }
    r
}

proof fn lemma_first_source(sources: Seq<TargetNodeSource>, reference: Seq<char>)
    ensures
        match first_source(sources, reference) {
            Some(i) => 0 <= i < sources.len() && sources[i].reference@ == reference && forall|j: int|
                0 <= j < i ==> sources[j].reference@ != reference,
            None => forall|i: int| 0 <= i < sources.len() ==> sources[i].reference@ != reference,
        },
    decreases sources.len(),
{
    if sources.len() > 0 {
        lemma_first_source(sources.drop_last(), reference);
        assert forall|i: int| 0 <= i < sources.len() - 1 implies sources.drop_last()[i] == sources[i] by {}
    }
}

proof fn lemma_first_source_at(sources: Seq<TargetNodeSource>, reference: Seq<char>, k: int)
    requires
        0 <= k < sources.len(),
        sources[k].reference@ == reference,
        forall|j: int| 0 <= j < k ==> #[trigger] sources[j].reference@ != reference,
    ensures
        first_source(sources, reference) == Some(k),
    decreases sources.len(),
{
    if k < sources.len() - 1 {
        lemma_first_source_at(sources.drop_last(), reference, k);
    } else {
        lemma_first_source(sources.drop_last(), reference);
    }
}

fn find_source(sources: &Vec<TargetNodeSource>, reference: &str) -> (r: Option<usize>)
    ensures
        match r {
            Some(i) => first_source(sources@, reference@) == Some(i as int),
            None => first_source(sources@, reference@) is None,
        },
{
    proof {
        lemma_first_source(sources@, reference@);
    }
    let mut k: usize = 0;
    while k < sources.len()
        invariant
            k <= sources.len(),
            forall|j: int| 0 <= j < k ==> #[trigger] sources@[j].reference@ != reference@,
        decreases sources.len() - k,
    {
        if crate::text::str_eq(sources[k].reference.as_str(), reference) {
            proof {
                lemma_first_source_at(sources@, reference@, k as int);
            }
            return Some(k);
        }
        k = k + 1;
    }
    None
}

proof fn lemma_kept_trans_nodes(a: Seq<TraceNodeView>, b: Seq<TraceNodeView>, c: Seq<TraceNodeView>)
    requires
        nodes_kept(a, b),
        nodes_kept(b, c),
    ensures
        nodes_kept(a, c),
{
    assert forall|n: TraceNodeView| a.contains(n) implies #[trigger] c.contains(n) by {
        assert(b.contains(n));
    }
}

proof fn lemma_kept_trans_edges(a: Seq<TraceEdgeView>, b: Seq<TraceEdgeView>, c: Seq<TraceEdgeView>)
    requires
        edges_kept(a, b),
        edges_kept(b, c),
    ensures
        edges_kept(a, c),
{
    assert forall|e: TraceEdgeView| a.contains(e) implies #[trigger] c.contains(e) by {
        assert(b.contains(e));
    }
}

/// Adds the node of `reference` unless the graph has it: the prepared node
/// of the binding target with that reference, else the node of the anchor.
pub fn add_target_or_anchor_trace_node(
    nodes: &mut TraceNodes,
    items: &Vec<ItemSummary>,
    sources: &Vec<TargetNodeSource>,
    reference: &str,
)
    ensures
        has_node(final(nodes)@, reference@),
        nodes_kept(old(nodes)@, final(nodes)@),
        gains_node(old(nodes)@, final(nodes)@, reference@, target_or_anchor_node(items@, sources@, reference@)),
{
    match find_source(sources, reference) {
        Some(i) => {
            proof {
                lemma_first_source(sources@, reference@);
            }
            let spec = copy_spec(&sources[i].spec);
            put_node(nodes, owned(reference), spec);
        },
        None => {
            let ghost before = nodes@;
            add_anchor_trace_node(nodes, items, reference);
            proof {
                if exists|k: int| 0 <= k < before.len() && before[k].id@ == reference@ {
                    let k = choose|k: int| 0 <= k < before.len() && before[k].id@ == reference@;
                    assert(node_ids(nodes@)[k] == reference@);
                } else {
                    let (p, n) = choose|p: int, n: TraceNodeView|
                        0 <= p <= before.len() && n.id@ == reference@ && n.stable_order == 0 && node_model(n)
                            == anchor_node(items@, reference@) && nodes@ == before.insert(p, n);
                    assert(nodes@[p] == n);
                    assert(node_ids(nodes@)[p] == reference@);
                    assert(nodes@.contains(n));
                    assert forall|m: TraceNodeView| before.contains(m) implies #[trigger] nodes@.contains(m) by {
                        let j = choose|j: int| 0 <= j < before.len() && before[j] == m;
                        if j < p {
                            assert(nodes@[j] == m);
                        } else {
                            assert(nodes@[j + 1] == m);
                        }
                    }
                }
            }
        },
    }
}

/// What the graph holds for a claim of `target` after `add_claim_trace`:
/// each destination as a node, an edge to it from the target and, for an
/// exact trace, from the claim node.
pub open spec fn claim_traced(
    nodes: Seq<TraceNodeView>,
    edges: Seq<TraceEdgeView>,
    target: Seq<char>,
    claim_id: Seq<char>,
    exact: bool,
    d: Seq<(Seq<char>, Seq<char>, Seq<char>)>,
    upto: int,
) -> bool {
    forall|j: int|
        0 <= j < upto ==> has_node(nodes, #[trigger] d[j].1) && has_edge(edges, edge_id(target, d[j].0, d[j].1))
            && (exact ==> has_edge(edges, edge_id(claim_id, d[j].0, d[j].1)))
}

/// Adds the trace of claim `claim_index` of the binding target
/// `target_reference`: the node of each place the claim leads to, with an
/// edge from the target; for an exact trace also a node for the claim
/// itself, an edge from the target to it, and an edge from it to each
/// place. `exact_claim` is the claim in its canonical JSON form. Nodes and
/// edges already in the graph are kept as they are.
pub fn add_claim_trace(
    nodes: &mut TraceNodes,
    edges: &mut TraceEdges,
    items: &Vec<ItemSummary>,
    sources: &Vec<TargetNodeSource>,
    exact: bool,
    target_reference: &str,
    claim_index: usize,
    claim: &TargetClaim,
    exact_claim: Option<String>,
)
    ensures
        nodes_kept(old(nodes)@, final(nodes)@),
        edges_kept(old(edges)@, final(edges)@),
        claim_traced(
            final(nodes)@,
            final(edges)@,
            target_reference@,
            claim_node_id(target_reference@, claim_index as nat),
            exact,
            spec_claim_destinations(*claim),
            spec_claim_destinations(*claim).len() as int,
        ),
        exact ==> {
            let id = claim_node_id(target_reference@, claim_index as nat);
            &&& has_node(final(nodes)@, id)
            &&& gains_node(
                old(nodes)@,
                final(nodes)@,
                id,
                claim_node(*claim, crate::trace_graph::opt_view(exact_claim)),
            )
            &&& has_edge(final(edges)@, edge_id(target_reference@, "claim"@, id))
        },
{
    let ghost start_nodes = nodes@;
    let ghost start_edges = edges@;
    let destinations = claim_destinations(claim);
    let ghost d = spec_claim_destinations(*claim);
    let mut claim_id = owned(target_reference);
    append(&mut claim_id, "#claim.");
    let index_text = usize_to_decimal(claim_index);
    append(&mut claim_id, index_text.as_str());
    let ghost cid = claim_id@;
    proof {
        assert(destinations_model(destinations@) == d);
        assert(forall|n: TraceNodeView| start_nodes.contains(n) ==> #[trigger] nodes@.contains(n));
        assert(forall|e: TraceEdgeView| start_edges.contains(e) ==> #[trigger] edges@.contains(e));
    }
    if exact {
        let label = if destinations.len() > 0 {
            owned(destinations[0].label.as_str())
        } else {
            owned("claim")
        };
        let claim_text = match &exact_claim {
            Some(c) => owned(c.as_str()),
            None => String::new(),
        };
        let mut metadata: Vec<TraceMetadataEntry> = Vec::new();
        metadata.push(TraceMetadataEntry { key: owned("claim"), value: claim_text });
        let spec = TraceNodeSpec {
            kind: owned("claim"),
            label,
            secondary_label: Some(owned("exact canonical claim")),
            lane: owned("specification"),
            source_target: None,
            item_id: None,
            metadata,
        };
        proof {
            if destinations@.len() > 0 {
                assert(destinations_model(destinations@)[0] == crate::trace_graph::destination_model(
                    destinations@[0],
                ));
            }
            assert(node_spec_model(spec).metadata =~= claim_node(*claim, crate::trace_graph::opt_view(exact_claim)).metadata);
            assert(node_spec_model(spec).label == claim_node(*claim, crate::trace_graph::opt_view(exact_claim)).label);
            assert(node_spec_model(spec) =~= claim_node(*claim, crate::trace_graph::opt_view(exact_claim)));
        }
        put_node(nodes, owned(claim_id.as_str()), spec);
        put_edge(edges, target_reference, claim_id.as_str(), "claim", "claim", copy_opt(&exact_claim));
    }
    let ghost after_claim_nodes = nodes@;
    let ghost after_claim_edges = edges@;
    let mut k: usize = 0;
    while k < destinations.len()
        invariant
            k <= destinations.len(),
            destinations_model(destinations@) == d,
            cid == claim_id@,
            nodes_kept(start_nodes, nodes@),
            edges_kept(start_edges, edges@),
            nodes_kept(after_claim_nodes, nodes@),
            edges_kept(after_claim_edges, edges@),
            exact ==> has_node(after_claim_nodes, cid) && gains_node(
                start_nodes,
                after_claim_nodes,
                cid,
                claim_node(*claim, crate::trace_graph::opt_view(exact_claim)),
            ) && has_edge(after_claim_edges, edge_id(target_reference@, "claim"@, cid)),
            claim_traced(nodes@, edges@, target_reference@, cid, exact, d, k as int),
        decreases destinations.len() - k,
    {
        let ghost n0 = nodes@;
        let ghost e0 = edges@;
        let dest = &destinations[k];
        proof {
            assert(d[k as int] == crate::trace_graph::destination_model(destinations@[k as int]));
        }
        add_target_or_anchor_trace_node(nodes, items, sources, dest.destination.as_str());
        put_edge(
            edges,
            target_reference,
            dest.destination.as_str(),
            dest.relation.as_str(),
            dest.label.as_str(),
            copy_opt(&exact_claim),
        );
        let ghost e1 = edges@;
        if exact {
            put_edge(
                edges,
                claim_id.as_str(),
                dest.destination.as_str(),
                dest.relation.as_str(),
                dest.label.as_str(),
                copy_opt(&exact_claim),
            );
        }
        proof {
            lemma_kept_trans_nodes(start_nodes, n0, nodes@);
            lemma_kept_trans_edges(start_edges, e0, edges@);
            lemma_kept_trans_nodes(after_claim_nodes, n0, nodes@);
            lemma_kept_trans_edges(after_claim_edges, e0, edges@);
            if exact {
                lemma_has_edge_kept(e1, edges@, edge_id(target_reference@, d[k as int].0, d[k as int].1));
            }
            assert forall|j: int| 0 <= j < k + 1 implies has_node(nodes@, #[trigger] d[j].1) && has_edge(
                edges@,
                edge_id(target_reference@, d[j].0, d[j].1),
            ) && (exact ==> has_edge(edges@, edge_id(cid, d[j].0, d[j].1))) by {
                if j < k {
                    lemma_has_node_kept(n0, nodes@, d[j].1);
                    lemma_has_edge_kept(e0, edges@, edge_id(target_reference@, d[j].0, d[j].1));
                    if exact {
                        lemma_has_edge_kept(e0, edges@, edge_id(cid, d[j].0, d[j].1));
                    }
                }
            }
        }
        k = k + 1;
    }
    proof {
        if exact {
            lemma_has_node_kept(after_claim_nodes, nodes@, cid);
            lemma_has_edge_kept(after_claim_edges, edges@, edge_id(target_reference@, "claim"@, cid));
            let c = claim_node(*claim, crate::trace_graph::opt_view(exact_claim));
            if !has_node(start_nodes, cid) {
                let n = choose|n: TraceNodeView| after_claim_nodes.contains(n) && n.id@ == cid && node_model(n) == c;
                assert(nodes@.contains(n));
            }
        }
    }
}

/// Adds the node of binding target `target` of `binding` of item `root`
/// unless the graph has it; `lifecycle_json` and `selector_json` are the
/// target's lifecycle and selector in their JSON form.
pub fn add_target_trace_node(
    nodes: &mut TraceNodes,
    root: &ItemSummary,
    binding: &crate::catalog::BindingSummary,
    target: &crate::catalog::BindingTargetSummary,
    selector: &crate::trace_graph::Selector,
    lifecycle_json: &str,
    selector_json: &str,
)
    ensures
        has_node(final(nodes)@, target.reference@),
        nodes_kept(old(nodes)@, final(nodes)@),
        gains_node(
            old(nodes)@,
            final(nodes)@,
            target.reference@,
            crate::trace_graph::target_node(root.id@, *binding, *target, *selector, lifecycle_json@, selector_json@),
        ),
{
    let spec = crate::trace_graph::target_node_spec(root, binding, target, selector, lifecycle_json, selector_json);
    put_node(nodes, owned(target.reference.as_str()), spec);
}

} // verus!
