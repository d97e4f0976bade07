//! The specification trace graph: nodes and edges keyed by their identity,
//! kept in identity order, and the bounded neighbourhood of a root.
use vstd::prelude::*;
use crate::text::{chars_of, compare_chars, owned, str_eq, string_of, append};

verus! {

/// One metadata entry of a trace node.
#[derive(Debug, Clone)]
pub struct TraceMetadataEntry {
    pub key: String,
    pub value: String,
}

/// A node of the trace graph.
#[derive(Debug, Clone)]
pub struct TraceNodeView {
    pub id: String,
    pub kind: String,
    pub label: String,
    pub secondary_label: Option<String>,
    pub lane: String,
    pub stable_order: usize,
    pub source_target: Option<String>,
    pub item_id: Option<String>,
    pub metadata: Vec<TraceMetadataEntry>,
}

/// An edge of the trace graph.
#[derive(Debug, Clone)]
pub struct TraceEdgeView {
    pub id: String,
    pub from: String,
    pub to: String,
    pub relation: String,
    pub display_label: String,
    pub exact_claim: Option<String>,
}

/// What a new node is made of, apart from its identity.
#[derive(Debug, Clone)]
pub struct TraceNodeSpec {
    pub kind: String,
    pub label: String,
    pub secondary_label: Option<String>,
    pub lane: String,
    pub source_target: Option<String>,
    pub item_id: Option<String>,
    pub metadata: Vec<TraceMetadataEntry>,
}

/// Whether identities strictly increase along the sequence.
pub open spec fn ids_sorted(ids: Seq<Seq<char>>) -> bool {
    forall|i: int, j: int| 0 <= i < j < ids.len() ==> crate::text::seq_lt(ids[i], ids[j])
}

pub open spec fn node_ids(nodes: Seq<TraceNodeView>) -> Seq<Seq<char>> {
    nodes.map_values(|n: TraceNodeView| n.id@)
}

pub open spec fn edge_ids(edges: Seq<TraceEdgeView>) -> Seq<Seq<char>> {
    edges.map_values(|e: TraceEdgeView| e.id@)
}

/// The nodes of a trace graph, one per identity, in identity order (the
/// order of a map keyed by `String`, kept as a sorted vector; see `sorted`).
pub struct TraceNodes {
    entries: Vec<TraceNodeView>,
}

/// The edges of a trace graph, one per identity, in identity order.
pub struct TraceEdges {
    entries: Vec<TraceEdgeView>,
}

impl View for TraceNodes {
    type V = Seq<TraceNodeView>;

    closed spec fn view(&self) -> Seq<TraceNodeView> {
        self.entries@
    }
}

impl View for TraceEdges {
    type V = Seq<TraceEdgeView>;

    closed spec fn view(&self) -> Seq<TraceEdgeView> {
        self.entries@
    }
}

impl TraceNodes {
    #[verifier::type_invariant]
    closed spec fn inv(&self) -> bool {
        ids_sorted(node_ids(self.entries@))
    }

    /// An empty node set.
    pub fn new() -> (r: TraceNodes)
        ensures
            r@ == Seq::<TraceNodeView>::empty(),
    {
        TraceNodes { entries: Vec::new() }
    }

    /// The nodes in identity order.
    pub fn entries(&self) -> (r: &Vec<TraceNodeView>)
        ensures
            r@ == self@,
            ids_sorted(node_ids(self@)),
    {
        proof {
            use_type_invariant(self);
        }
        &self.entries
    }
}

impl TraceEdges {
    #[verifier::type_invariant]
    closed spec fn inv(&self) -> bool {
        ids_sorted(edge_ids(self.entries@))
    }

    /// An empty edge set.
    pub fn new() -> (r: TraceEdges)
        ensures
            r@ == Seq::<TraceEdgeView>::empty(),
    {
        TraceEdges { entries: Vec::new() }
    }

    /// The edges in identity order.
    pub fn entries(&self) -> (r: &Vec<TraceEdgeView>)
        ensures
            r@ == self@,
            ids_sorted(edge_ids(self@)),
    {
        proof {
            use_type_invariant(self);
        }
        &self.entries
    }
}

/// Where `id` belongs in the sorted identities `ids`: `Ok(k)` when it is
/// there at `k`, `Err(p)` for the position that keeps the order.
pub(crate) fn locate(ids: &Vec<Vec<char>>, id: &Vec<char>) -> (r: Result<usize, usize>)
    requires
        ids_sorted(ids@.map_values(|v: Vec<char>| v@)),
    ensures
        r is Ok ==> r->Ok_0 < ids@.len() && ids@[r->Ok_0 as int]@ == id@,
        r is Err ==> r->Err_0 <= ids@.len() && (forall|k: int|
            0 <= k < ids@.len() ==> ids@[k]@ != id@) && (forall|k: int|
            0 <= k < r->Err_0 ==> crate::text::seq_lt(ids@[k]@, id@)) && (forall|k: int|
            r->Err_0 <= k < ids@.len() ==> crate::text::seq_lt(id@, ids@[k]@)),
{
    let ghost v = ids@.map_values(|x: Vec<char>| x@);
    let mut i: usize = 0;
    while i < ids.len()
        invariant
            i <= ids.len(),
            v == ids@.map_values(|x: Vec<char>| x@),
            ids_sorted(v),
            forall|k: int| 0 <= k < i ==> crate::text::seq_lt(ids@[k]@, id@),
        decreases ids.len() - i,
    {
        let c = compare_chars(&ids[i], id);
        if c == 0 {
            return Ok(i);
        }
        if c > 0 {
            proof {
                assert forall|k: int| 0 <= k < ids@.len() implies ids@[k]@ != id@ by {
                    if k < i {
                        crate::text::lemma_lt_irreflexive(id@);
                    } else if k > i {
                        assert(crate::text::seq_lt(v[i as int], v[k]));
                        crate::text::lemma_lt_transitive(id@, ids@[i as int]@, ids@[k]@);
                        crate::text::lemma_lt_irreflexive(id@);
                    }
                }
                assert forall|k: int| i <= k < ids@.len() implies crate::text::seq_lt(
                    id@,
                    ids@[k]@,
                ) by {
                    if k > i {
                        assert(crate::text::seq_lt(v[i as int], v[k]));
                        crate::text::lemma_lt_transitive(id@, ids@[i as int]@, ids@[k]@);
                    }
                }
            }
            return Err(i);
        }
        i = i + 1;
    }
    proof {
        assert forall|k: int| 0 <= k < ids@.len() implies ids@[k]@ != id@ by {
            crate::text::lemma_lt_irreflexive(id@);
        }
    }
    Err(i)
}

fn node_keys(nodes: &Vec<TraceNodeView>) -> (r: Vec<Vec<char>>)
    ensures
        r@.map_values(|v: Vec<char>| v@) == node_ids(nodes@),
{
    let mut r: Vec<Vec<char>> = Vec::new();
    let mut i: usize = 0;
    while i < nodes.len()
        invariant
            i <= nodes.len(),
            r@.len() == i,
            r@.map_values(|v: Vec<char>| v@) == node_ids(nodes@).take(i as int),
        decreases nodes.len() - i,
    {
        let key = chars_of(nodes[i].id.as_str());
        assert(key@ == nodes@[i as int].id@);
        assert(node_ids(nodes@)[i as int] == nodes@[i as int].id@);
        let ghost prev = r@;
        r.push(key);
        proof {
            let now = r@.map_values(|v: Vec<char>| v@);
            let want = node_ids(nodes@).take(i + 1);
            assert forall|j: int| 0 <= j < i + 1 implies now[j] == want[j] by {
                if j < i {
                    assert(prev.map_values(|v: Vec<char>| v@)[j] == node_ids(nodes@).take(i as int)[j]);
                    assert(r@[j] == prev[j]);
                }
            }
            assert(now =~= want);
        }
        i = i + 1;
    }
    assert(node_ids(nodes@).take(nodes.len() as int) =~= node_ids(nodes@));
    r
}

fn edge_keys(edges: &Vec<TraceEdgeView>) -> (r: Vec<Vec<char>>)
    ensures
        r@.map_values(|v: Vec<char>| v@) == edge_ids(edges@),
{
    let mut r: Vec<Vec<char>> = Vec::new();
    let mut i: usize = 0;
    while i < edges.len()
        invariant
            i <= edges.len(),
            r@.len() == i,
            r@.map_values(|v: Vec<char>| v@) == edge_ids(edges@).take(i as int),
        decreases edges.len() - i,
    {
        let key = chars_of(edges[i].id.as_str());
        assert(key@ == edges@[i as int].id@);
        assert(edge_ids(edges@)[i as int] == edges@[i as int].id@);
        let ghost prev = r@;
        r.push(key);
        proof {
            let now = r@.map_values(|v: Vec<char>| v@);
            let want = edge_ids(edges@).take(i + 1);
            assert forall|j: int| 0 <= j < i + 1 implies now[j] == want[j] by {
                if j < i {
                    assert(prev.map_values(|v: Vec<char>| v@)[j] == edge_ids(edges@).take(i as int)[j]);
                    assert(r@[j] == prev[j]);
                }
            }
            assert(now =~= want);
        }
        i = i + 1;
    }
    assert(edge_ids(edges@).take(edges.len() as int) =~= edge_ids(edges@));
    r
}

/// The node a specification makes.
pub open spec fn node_from_spec(id: String, spec: TraceNodeSpec) -> TraceNodeView {
    TraceNodeView {
        id,
        kind: spec.kind,
        label: spec.label,
        secondary_label: spec.secondary_label,
        lane: spec.lane,
        stable_order: 0,
        source_target: spec.source_target,
        item_id: spec.item_id,
        metadata: spec.metadata,
    }
}

/// Adds the node `id` unless a node with that identity exists; an existing
/// node is kept as it is.
pub fn trace_node(nodes: &mut TraceNodes, id: String, spec: TraceNodeSpec)
    ensures
        (exists|k: int| 0 <= k < old(nodes)@.len() && old(nodes)@[k].id@ == id@) ==> final(nodes)@
            == old(nodes)@,
        (forall|k: int| 0 <= k < old(nodes)@.len() ==> old(nodes)@[k].id@ != id@) ==> exists|
            p: int,
        |
            0 <= p <= old(nodes)@.len() && final(nodes)@ == old(nodes)@.insert(
                p,
                node_from_spec(id, spec),
            ),
{
    proof {
        use_type_invariant(&*nodes);
    }
    let ghost id_ghost = id;
    let ghost spec_ghost = spec;
    let keys = node_keys(&nodes.entries);
    let key = chars_of(id.as_str());
    match locate(&keys, &key) {
        Ok(k) => {
            assert(keys@.map_values(|v: Vec<char>| v@)[k as int] == keys@[k as int]@);
            assert(keys@.map_values(|v: Vec<char>| v@).len() == keys@.len());
            assert(node_ids(nodes.entries@).len() == nodes.entries@.len());
            assert(node_ids(nodes.entries@)[k as int] == nodes.entries@[k as int].id@);
            assert(nodes.entries@[k as int].id@ == id@);
        },
        Err(p) => {
            let ghost old_entries = nodes.entries@;
            proof {
                assert(keys@.map_values(|v: Vec<char>| v@).len() == keys@.len());
                assert(node_ids(old_entries).len() == old_entries.len());
                assert forall|j: int| 0 <= j < old_entries.len() implies old_entries[j].id@ != id@ by {
                    assert(keys@.map_values(|v: Vec<char>| v@)[j] == keys@[j]@);
                    assert(node_ids(old_entries)[j] == old_entries[j].id@);
                }
            }
            let node = TraceNodeView {
                id,
                kind: spec.kind,
                label: spec.label,
                secondary_label: spec.secondary_label,
                lane: spec.lane,
                stable_order: 0,
                source_target: spec.source_target,
                item_id: spec.item_id,
                metadata: spec.metadata,
            };
            let mut entries: Vec<_> = Vec::new();
            std::mem::swap(&mut entries, &mut nodes.entries);
            entries.insert(p, node);
            assert(entries@ == old_entries.insert(p as int, node_from_spec(id_ghost, spec_ghost)));
            proof {
                let ni = node_ids(entries@);
                assert forall|i: int, j: int| 0 <= i < j < ni.len() implies crate::text::seq_lt(
                    ni[i],
                    ni[j],
                ) by {
                    let oi = node_ids(old_entries);
                    if j < p {
                        assert(ni[i] == oi[i] && ni[j] == oi[j]);
                    } else if j == p {
                        assert(ni[i] == oi[i]);
                    } else if i == p {
                        assert(ni[j] == oi[j - 1]);
                    } else if i < p {
                        assert(ni[i] == oi[i] && ni[j] == oi[j - 1]);
                    } else {
                        assert(ni[i] == oi[i - 1] && ni[j] == oi[j - 1]);
                    }
                }
            }
            nodes.entries = entries;
            assert(nodes@ == old_entries.insert(p as int, node_from_spec(id_ghost, spec_ghost)));
        },
    }
}

/// The identity of the edge `from --relation--> to`.
pub open spec fn edge_id(from: Seq<char>, relation: Seq<char>, to: Seq<char>) -> Seq<char> {
    from + "|"@ + relation + "|"@ + to
}

/// Adds the edge `from --relation--> to` unless an edge with its identity
/// exists; an existing edge is kept as it is.
pub fn add_trace_edge(
    edges: &mut TraceEdges,
    from: &str,
    to: &str,
    relation: &str,
    display_label: &str,
    exact_claim: Option<String>,
)
    ensures
        (exists|k: int|
            0 <= k < old(edges)@.len() && old(edges)@[k].id@ == edge_id(from@, relation@, to@))
            ==> final(edges)@ == old(edges)@,
        (forall|k: int|
            0 <= k < old(edges)@.len() ==> old(edges)@[k].id@ != edge_id(from@, relation@, to@))
            ==> exists|p: int, e: TraceEdgeView|
            0 <= p <= old(edges)@.len() && final(edges)@ == old(edges)@.insert(p, e) && e.id@
                == edge_id(from@, relation@, to@) && e.from@ == from@ && e.to@ == to@
                && e.relation@ == relation@ && e.display_label@ == display_label@ && e.exact_claim
                == exact_claim,
{
    proof {
        use_type_invariant(&*edges);
    }
    let mut id = owned(from);
    append(&mut id, "|");
    append(&mut id, relation);
    append(&mut id, "|");
    append(&mut id, to);
    let keys = edge_keys(&edges.entries);
    let key = chars_of(id.as_str());
    match locate(&keys, &key) {
        Ok(k) => {
            assert(keys@.map_values(|v: Vec<char>| v@)[k as int] == keys@[k as int]@);
            assert(keys@.map_values(|v: Vec<char>| v@).len() == keys@.len());
            assert(edge_ids(edges.entries@).len() == edges.entries@.len());
            assert(edge_ids(edges.entries@)[k as int] == edges.entries@[k as int].id@);
            assert(edges.entries@[k as int].id@ == id@);
        },
        Err(p) => {
            let ghost old_entries = edges.entries@;
            proof {
                assert(keys@.map_values(|v: Vec<char>| v@).len() == keys@.len());
                assert(edge_ids(old_entries).len() == old_entries.len());
                assert forall|j: int| 0 <= j < old_entries.len() implies old_entries[j].id@ != id@ by {
                    assert(keys@.map_values(|v: Vec<char>| v@)[j] == keys@[j]@);
                    assert(edge_ids(old_entries)[j] == old_entries[j].id@);
                }
            }
            let edge = TraceEdgeView {
                id,
                from: owned(from),
                to: owned(to),
                relation: owned(relation),
                display_label: owned(display_label),
                exact_claim,
            };
            let ghost e = edge;
            let mut entries: Vec<_> = Vec::new();
            std::mem::swap(&mut entries, &mut edges.entries);
            entries.insert(p, edge);
            proof {
                let ni = edge_ids(entries@);
                assert forall|i: int, j: int| 0 <= i < j < ni.len() implies crate::text::seq_lt(
                    ni[i],
                    ni[j],
                ) by {
                    let oi = edge_ids(old_entries);
                    if j < p {
                        assert(ni[i] == oi[i] && ni[j] == oi[j]);
                    } else if j == p {
                        assert(ni[i] == oi[i]);
                    } else if i == p {
                        assert(ni[j] == oi[j - 1]);
                    } else if i < p {
                        assert(ni[i] == oi[i] && ni[j] == oi[j - 1]);
                    } else {
                        assert(ni[i] == oi[i - 1] && ni[j] == oi[j - 1]);
                    }
                }
                assert(entries@ == old_entries.insert(p as int, e));
            }
            edges.entries = entries;
            assert(edges@ == old_entries.insert(p as int, e));
        },
    }
}

/// The display order of the graph's lanes.
pub open spec fn spec_lane_rank(lane: Seq<char>) -> nat {
    if lane == "governance"@ {
        0
    } else if lane == "specification"@ {
        1
    } else if lane == "implementation"@ {
        2
    } else if lane == "evidence"@ {
        3
    } else {
        4
    }
}

/// The display rank of a lane.
pub fn trace_lane_rank(lane: &str) -> (r: usize)
    ensures
        r as nat == spec_lane_rank(lane@),
{
    if str_eq(lane, "governance") {
        0
    } else if str_eq(lane, "specification") {
        1
    } else if str_eq(lane, "implementation") {
        2
    } else if str_eq(lane, "evidence") {
        3
    } else {
        4
    }
}


/// The distance found for one node of a bounded neighbourhood.
#[derive(Debug, Clone)]
pub struct TraceDistance {
    pub node: String,
    pub distance: usize,
}

/// Whether an edge joins `a` and `b`, in either direction.
pub open spec fn adjacent(edges: Seq<TraceEdgeView>, a: Seq<char>, b: Seq<char>) -> bool {
    exists|k: int|
        0 <= k < edges.len() && ((edges[k].from@ == a && edges[k].to@ == b) || (edges[k].to@ == a
            && edges[k].from@ == b))
}

pub open spec fn distance_nodes(d: Seq<TraceDistance>) -> Seq<Seq<char>> {
    d.map_values(|x: TraceDistance| x.node@)
}

/// Whether the neighbourhood `d` holds node `n`.
pub open spec fn reached(d: Seq<TraceDistance>, n: Seq<char>) -> bool {
    exists|k: int| 0 <= k < d.len() && d[k].node@ == n
}

/// What a neighbourhood of `root` up to `depth` over `edges` is: `root` at
/// distance 0 (first); every other node one step further than a neighbour in
/// it; every distance at most `depth`; each node once; and every neighbour of
/// a node nearer than `depth` is in it.
pub open spec fn is_neighbourhood(
    d: Seq<TraceDistance>,
    root: Seq<char>,
    edges: Seq<TraceEdgeView>,
    depth: nat,
) -> bool {
    &&& d.len() > 0
    &&& d[0].node@ == root
    &&& d[0].distance == 0
    &&& distance_nodes(d).no_duplicates()
    &&& forall|k: int| 0 <= k < d.len() ==> d[k].distance <= depth
    &&& forall|k: int|
        0 < k < d.len() ==> d[k].distance >= 1 && exists|j: int|
            0 <= j < d.len() && d[j].distance + 1 == d[k].distance && adjacent(
                edges,
                d[j].node@,
                d[k].node@,
            )
    &&& forall|k: int, b: Seq<char>|
        0 <= k < d.len() && d[k].distance < depth && adjacent(edges, d[k].node@, b) ==> reached(
            d,
            b,
        )
}


/// A neighbourhood as values: each node with its distance, in the order
/// found.
pub open spec fn dist_view(d: Seq<TraceDistance>) -> Seq<(Seq<char>, nat)> {
    d.map_values(|x: TraceDistance| (x.node@, x.distance as nat))
}

pub open spec fn names(f: Seq<String>) -> Seq<Seq<char>> {
    f.map_values(|x: String| x@)
}

/// The distance a node was first found at.
pub open spec fn lookup(d: Seq<(Seq<char>, nat)>, n: Seq<char>) -> Option<nat>
    decreases d.len(),
{
    if d.len() == 0 {
        None
    } else {
        match lookup(d.drop_last(), n) {
            Some(x) => Some(x),
            None => if d.last().0 == n {
                Some(d.last().1)
            } else {
                None
            },
        }
    }
}

/// The other end of edge `e` when one end is `c`.
pub open spec fn neighbour_via(e: TraceEdgeView, c: Seq<char>) -> Option<Seq<char>> {
    if e.from@ == c {
        Some(e.to@)
    } else if e.to@ == c {
        Some(e.from@)
    } else {
        None
    }
}

/// Scanning the edges `es` (in order) from node `c` at distance `cd`: each
/// neighbour not found yet is found at `cd + 1` and pushed on the stack.
pub open spec fn scan(
    d: Seq<(Seq<char>, nat)>,
    f: Seq<Seq<char>>,
    c: Seq<char>,
    cd: nat,
    es: Seq<TraceEdgeView>,
) -> (Seq<(Seq<char>, nat)>, Seq<Seq<char>>)
    decreases es.len(),
{
    if es.len() == 0 {
        (d, f)
    } else {
        let prev = scan(d, f, c, cd, es.drop_last());
        match neighbour_via(es.last(), c) {
            Some(n) => if lookup(prev.0, n) is Some {
                prev
            } else {
                (prev.0.push((n, cd + 1)), prev.1.push(n))
            },
            None => prev,
        }
    }
}

/// The search from the found nodes `d` and the stack `f`, taking at most
/// `fuel` nodes off the stack: the node on top is taken off; unless it is
/// at `depth` already, the edges are scanned from it. `None` when the fuel
/// runs out before the stack is empty.
pub open spec fn walk(
    es: Seq<TraceEdgeView>,
    depth: nat,
    d: Seq<(Seq<char>, nat)>,
    f: Seq<Seq<char>>,
    fuel: nat,
) -> Option<Seq<(Seq<char>, nat)>>
    decreases fuel,
{
    if f.len() == 0 {
        Some(d)
    } else if fuel == 0 {
        None
    } else {
        let c = f.last();
        let rest = f.drop_last();
        match lookup(d, c) {
            Some(cd) => if cd >= depth {
                walk(es, depth, d, rest, (fuel - 1) as nat)
            } else {
                let next = scan(d, rest, c, cd, es);
                walk(es, depth, next.0, next.1, (fuel - 1) as nat)
            },
            None => walk(es, depth, d, rest, (fuel - 1) as nat),
        }
    }
}

/// The neighbourhood the search from `root` finds: starting from `root` at
/// distance 0 alone on the stack, until the stack is empty.
pub open spec fn searched(root: Seq<char>, es: Seq<TraceEdgeView>, depth: nat, r: Seq<(Seq<char>, nat)>) -> bool {
    exists|fuel: nat| walk(es, depth, seq![(root, 0nat)], seq![root], fuel) == Some(r)
}

/// A search that ends ends the same way with more fuel, so `searched` pins
/// the neighbourhood down.
pub proof fn lemma_walk_more_fuel(
    es: Seq<TraceEdgeView>,
    depth: nat,
    d: Seq<(Seq<char>, nat)>,
    f: Seq<Seq<char>>,
    fuel: nat,
    more: nat,
)
    requires
        walk(es, depth, d, f, fuel) is Some,
        fuel <= more,
    ensures
        walk(es, depth, d, f, more) == walk(es, depth, d, f, fuel),
    decreases fuel,
{
    if f.len() > 0 {
        let c = f.last();
        let rest = f.drop_last();
        match lookup(d, c) {
            Some(cd) => if cd >= depth {
                lemma_walk_more_fuel(es, depth, d, rest, (fuel - 1) as nat, (more - 1) as nat);
            } else {
                let next = scan(d, rest, c, cd, es);
                lemma_walk_more_fuel(es, depth, next.0, next.1, (fuel - 1) as nat, (more - 1) as nat);
            },
            None => {
                lemma_walk_more_fuel(es, depth, d, rest, (fuel - 1) as nat, (more - 1) as nat);
            },
        }
    }
}

/// Two ends of the same search agree.
pub proof fn lemma_searched_unique(
    root: Seq<char>,
    es: Seq<TraceEdgeView>,
    depth: nat,
    r1: Seq<(Seq<char>, nat)>,
    r2: Seq<(Seq<char>, nat)>,
)
    requires
        searched(root, es, depth, r1),
        searched(root, es, depth, r2),
    ensures
        r1 == r2,
{
    let f1 = choose|fuel: nat| walk(es, depth, seq![(root, 0nat)], seq![root], fuel) == Some(r1);
    let f2 = choose|fuel: nat| walk(es, depth, seq![(root, 0nat)], seq![root], fuel) == Some(r2);
    if f1 <= f2 {
        lemma_walk_more_fuel(es, depth, seq![(root, 0nat)], seq![root], f1, f2);
    } else {
        lemma_walk_more_fuel(es, depth, seq![(root, 0nat)], seq![root], f2, f1);
    }
}

proof fn lemma_lookup(d: Seq<(Seq<char>, nat)>, n: Seq<char>)
    ensures
        match lookup(d, n) {
            Some(x) => exists|k: int|
                0 <= k < d.len() && d[k].0 == n && d[k].1 == x && forall|j: int| 0 <= j < k ==> d[j].0 != n,
            None => forall|k: int| 0 <= k < d.len() ==> d[k].0 != n,
        },
    decreases d.len(),
{
    if d.len() > 0 {
        lemma_lookup(d.drop_last(), n);
        match lookup(d.drop_last(), n) {
            Some(x) => {
                let k = choose|k: int|
                    0 <= k < d.drop_last().len() && d.drop_last()[k].0 == n && d.drop_last()[k].1 == x
                        && forall|j: int| 0 <= j < k ==> d.drop_last()[j].0 != n;
                assert(d[k] == d.drop_last()[k]);
                assert forall|j: int| 0 <= j < k implies d[j].0 != n by {
                    assert(d[j] == d.drop_last()[j]);
                }
            },
            None => {
                assert forall|j: int| 0 <= j < d.len() - 1 implies d[j].0 != n by {
                    assert(d[j] == d.drop_last()[j]);
                }
            },
        }
    }
}

/// The distance found for the first entry of `n` is what `lookup` gives.
proof fn lemma_lookup_at(d: Seq<(Seq<char>, nat)>, n: Seq<char>, k: int)
    requires
        0 <= k < d.len(),
        d[k].0 == n,
        forall|j: int| 0 <= j < k ==> d[j].0 != n,
    ensures
        lookup(d, n) == Some(d[k].1),
{
    lemma_lookup(d, n);
    match lookup(d, n) {
        Some(x) => {
            let k2 = choose|k2: int|
                0 <= k2 < d.len() && d[k2].0 == n && d[k2].1 == x && forall|j: int| 0 <= j < k2 ==> d[j].0 != n;
            if k2 < k {
            } else if k < k2 {
            }
        },
        None => {},
    }
}


proof fn lemma_lookup_push(d: Seq<(Seq<char>, nat)>, x: (Seq<char>, nat), n: Seq<char>)
    ensures
        lookup(d.push(x), n) == (if lookup(d, n) is Some {
            lookup(d, n)
        } else if x.0 == n {
            Some(x.1)
        } else {
            None
        }),
{
    assert(d.push(x).drop_last() =~= d);
}

proof fn lemma_scan_keeps(
    d: Seq<(Seq<char>, nat)>,
    f: Seq<Seq<char>>,
    c: Seq<char>,
    cd: nat,
    es: Seq<TraceEdgeView>,
    n: Seq<char>,
)
    requires
        lookup(d, n) is Some,
    ensures
        lookup(scan(d, f, c, cd, es).0, n) == lookup(d, n),
    decreases es.len(),
{
    if es.len() > 0 {
        lemma_scan_keeps(d, f, c, cd, es.drop_last(), n);
        let prev = scan(d, f, c, cd, es.drop_last());
        match neighbour_via(es.last(), c) {
            Some(m) => {
                lemma_lookup_push(prev.0, (m, cd + 1), n);
            },
            None => {},
        }
    }
}

proof fn lemma_walk_keeps(
    es: Seq<TraceEdgeView>,
    depth: nat,
    d: Seq<(Seq<char>, nat)>,
    f: Seq<Seq<char>>,
    fuel: nat,
    n: Seq<char>,
)
    requires
        walk(es, depth, d, f, fuel) is Some,
        lookup(d, n) is Some,
    ensures
        lookup(walk(es, depth, d, f, fuel)->0, n) == lookup(d, n),
    decreases fuel,
{
    if f.len() > 0 {
        let c = f.last();
        let rest = f.drop_last();
        match lookup(d, c) {
            Some(cd) => if cd >= depth {
                lemma_walk_keeps(es, depth, d, rest, (fuel - 1) as nat, n);
            } else {
                let next = scan(d, rest, c, cd, es);
                lemma_scan_keeps(d, rest, c, cd, es, n);
                lemma_walk_keeps(es, depth, next.0, next.1, (fuel - 1) as nat, n);
            },
            None => {
                lemma_walk_keeps(es, depth, d, rest, (fuel - 1) as nat, n);
            },
        }
    }
}

proof fn lemma_scan_from_root(f: Seq<Seq<char>>, root: Seq<char>, es: Seq<TraceEdgeView>)
    ensures
        scan(seq![(root, 0nat)], f, root, 0, es).0.len() > 0,
        scan(seq![(root, 0nat)], f, root, 0, es).0[0] == (root, 0nat),
        forall|j: int|
            0 < j < scan(seq![(root, 0nat)], f, root, 0, es).0.len() ==> #[trigger] scan(
                seq![(root, 0nat)],
                f,
                root,
                0,
                es,
            ).0[j].1 == 1,
        forall|k: int|
            0 <= k < es.len() && neighbour_via(#[trigger] es[k], root) is Some && neighbour_via(es[k], root)->0
                != root ==> lookup(scan(seq![(root, 0nat)], f, root, 0, es).0, neighbour_via(es[k], root)->0)
                == Some(1nat),
    decreases es.len(),
{
    let d0 = seq![(root, 0nat)];
    if es.len() == 0 {
        assert(d0[0] == (root, 0nat));
    } else {
        let p = es.drop_last();
        lemma_scan_from_root(f, root, p);
        let prev = scan(d0, f, root, 0, p);
        let res = scan(d0, f, root, 0, es);
        assert forall|k: int|
            0 <= k < es.len() && neighbour_via(#[trigger] es[k], root) is Some && neighbour_via(es[k], root)->0
                != root implies lookup(res.0, neighbour_via(es[k], root)->0) == Some(1nat) by {
            let n = neighbour_via(es[k], root)->0;
            if k < es.len() - 1 {
                assert(p[k] == es[k]);
                match neighbour_via(es.last(), root) {
                    Some(m) => {
                        lemma_lookup_push(prev.0, (m, 1nat), n);
                    },
                    None => {},
                }
            } else {
                lemma_lookup(prev.0, n);
                match lookup(prev.0, n) {
                    Some(x) => {
                        let k0 = choose|k0: int|
                            0 <= k0 < prev.0.len() && prev.0[k0].0 == n && prev.0[k0].1 == x && forall|j: int|
                                0 <= j < k0 ==> prev.0[j].0 != n;
                        assert(k0 != 0);
                    },
                    None => {
                        lemma_lookup_push(prev.0, (n, 1nat), n);
                    },
                }
            }
        }
        match neighbour_via(es.last(), root) {
            Some(m) => {
                if lookup(prev.0, m) is None {
                    assert forall|j: int| 0 < j < res.0.len() implies #[trigger] res.0[j].1 == 1 by {
                        if j < prev.0.len() {
                            assert(res.0[j] == prev.0[j]);
                        }
                    }
                }
            },
            None => {},
        }
    }
}

/// With a depth of at least one, every node joined to the root by an edge
/// (in either direction) is found at distance 1.
pub proof fn lemma_root_neighbours_at_one(
    root: Seq<char>,
    es: Seq<TraceEdgeView>,
    depth: nat,
    r: Seq<(Seq<char>, nat)>,
    k: int,
    n: Seq<char>,
)
    requires
        searched(root, es, depth, r),
        depth >= 1,
        0 <= k < es.len(),
        neighbour_via(es[k], root) == Some(n),
        n != root,
    ensures
        lookup(r, n) == Some(1nat),
{
    let d0 = seq![(root, 0nat)];
    let f0 = seq![root];
    let fuel = choose|fuel: nat| walk(es, depth, d0, f0, fuel) == Some(r);
    assert(f0.last() == root);
    assert(f0.drop_last() =~= Seq::<Seq<char>>::empty());
    lemma_lookup_push(Seq::empty(), (root, 0nat), root);
    assert(Seq::<(Seq<char>, nat)>::empty().push((root, 0nat)) =~= d0);
    assert(lookup(d0, root) == Some(0nat));
    let next = scan(d0, Seq::empty(), root, 0, es);
    lemma_scan_from_root(Seq::empty(), root, es);
    assert(walk(es, depth, d0, f0, fuel) == walk(es, depth, next.0, next.1, (fuel - 1) as nat));
    lemma_walk_keeps(es, depth, next.0, next.1, (fuel - 1) as nat, n);
}

/// `root` and every edge endpoint.
pub open spec fn endpoints(root: Seq<char>, edges: Seq<TraceEdgeView>) -> Seq<Seq<char>> {
    seq![root] + Seq::new(
        2 * edges.len(),
        |i: int|
            if i % 2 == 0 {
                edges[i / 2].from@
            } else {
                edges[i / 2].to@
            },
    )
}

fn find_distance(d: &Vec<TraceDistance>, node: &str) -> (r: Option<usize>)
    ensures
        r is Some ==> r->0 < d@.len() && d@[r->0 as int].node@ == node@ && forall|k: int|
            0 <= k < r->0 ==> d@[k].node@ != node@,
        r is None ==> !reached(d@, node@),
{
    let mut i: usize = 0;
    while i < d.len()
        invariant
            i <= d.len(),
            forall|k: int| 0 <= k < i ==> d@[k].node@ != node@,
        decreases d.len() - i,
    {
        if str_eq(d[i].node.as_str(), node) {
            return Some(i);
        }
        i = i + 1;
    }
    None
}

proof fn lemma_bounded(d: Seq<TraceDistance>, u: Seq<Seq<char>>)
    requires
        distance_nodes(d).no_duplicates(),
        forall|k: int| 0 <= k < d.len() ==> u.contains(#[trigger] d[k].node@),
    ensures
        d.len() <= u.len(),
{
    let dn = distance_nodes(d);
    dn.unique_seq_to_set();
    u.lemma_cardinality_of_set();
    assert(dn.to_set().subset_of(u.to_set())) by {
        assert forall|x: Seq<char>| dn.to_set().contains(x) implies u.to_set().contains(x) by {
            let k = choose|k: int| 0 <= k < dn.len() && dn[k] == x;
            assert(u.contains(d[k].node@));
        }
    }
    vstd::set_lib::lemma_len_subset(dn.to_set(), u.to_set());
}

/// The bounded neighbourhood of `root`: nodes reached from it through edges
/// in either direction, up to `depth` steps.  The search takes the most
/// recently found node first and visits edges in identity order; a node
/// keeps the distance it was first found at.
pub fn trace_distances(root: &str, edges: &TraceEdges, depth: usize) -> (r: Vec<TraceDistance>)
    ensures
        is_neighbourhood(r@, root@, edges@, depth as nat),
        searched(root@, edges@, depth as nat, dist_view(r@)),
{
    let es = edges.entries();
    let ghost e = es@;
    let ghost u = endpoints(root@, e);
    let mut d: Vec<TraceDistance> = Vec::new();
    d.push(TraceDistance { node: owned(root), distance: 0 });
    let mut frontier: Vec<String> = Vec::new();
    frontier.push(owned(root));
    let ghost dv0 = seq![(root@, 0nat)];
    let ghost fv0 = seq![root@];
    let ghost mut t: nat = 0;
    proof {
        assert(dist_view(d@) =~= dv0);
        assert(names(frontier@) =~= fv0);
        assert(distance_nodes(d@) =~= seq![root@]);
        assert(u[0] == root@);
        assert(frontier@.map_values(|x: String| x@) =~= seq![root@]);
        assert(frontier@.map_values(|x: String| x@)[0] == root@);
    }
    loop
        invariant
            e == es@,
            u == endpoints(root@, e),
            d@.len() > 0,
            d@[0].node@ == root@,
            d@[0].distance == 0,
            distance_nodes(d@).no_duplicates(),
            forall|k: int| 0 <= k < d@.len() ==> d@[k].distance <= depth,
            forall|k: int| 0 <= k < d@.len() ==> u.contains(#[trigger] d@[k].node@),
            forall|k: int|
                0 < k < d@.len() ==> d@[k].distance >= 1 && exists|j: int|
                    0 <= j < d@.len() && d@[j].distance + 1 == d@[k].distance && adjacent(
                        e,
                        d@[j].node@,
                        d@[k].node@,
                    ),
            forall|f: int| 0 <= f < frontier@.len() ==> reached(d@, #[trigger] frontier@[f]@),
            frontier@.map_values(|x: String| x@).no_duplicates(),
            forall|k: int, b: Seq<char>|
                0 <= k < d@.len() && d@[k].distance < depth && !frontier@.map_values(
                    |x: String| x@,
                ).contains(d@[k].node@) && adjacent(e, d@[k].node@, b) ==> reached(d@, b),
            d@.len() <= u.len(),
            forall|m: nat|
                #![trigger walk(e, depth as nat, dist_view(d@), names(frontier@), m)]
                walk(e, depth as nat, dv0, fv0, m + t) == walk(e, depth as nat, dist_view(d@), names(frontier@), m),
        ensures
            is_neighbourhood(d@, root@, e, depth as nat),
            walk(e, depth as nat, dv0, fv0, t) == Some(dist_view(d@)),
        decreases u.len() - d@.len(), frontier@.len(),
    {
        proof {
            lemma_bounded(d@, u);
        }
        let ghost fv_before = frontier@.map_values(|x: String| x@);
        let ghost nfb = names(frontier@);
        let ghost dvs = dist_view(d@);
        let current = match frontier.pop() {
            None => {
                proof {
                    assert(walk(e, depth as nat, dv0, fv0, 0 + t) == walk(e, depth as nat, dist_view(d@), names(frontier@), 0));
                    assert forall|k: int, b: Seq<char>|
                        0 <= k < d@.len() && d@[k].distance < depth && adjacent(
                            e,
                            d@[k].node@,
                            b,
                        ) implies reached(d@, b) by {
                        assert(!frontier@.map_values(|x: String| x@).contains(d@[k].node@));
                    }
                }
                break;
            },
            Some(c) => c,
        };
        let ghost fv = frontier@.map_values(|x: String| x@);
        let ghost fvs = names(frontier@);
        proof {
            assert(nfb =~= fvs.push(current@));
            assert(fv_before =~= fv.push(current@));
            assert(!fv.contains(current@)) by {
                if fv.contains(current@) {
                    let f = choose|f: int| 0 <= f < fv.len() && fv[f] == current@;
                    assert(fv_before[f] == fv_before[fv.len() as int]);
                }
            }
            assert(reached(d@, fv_before[fv.len() as int]));
            assert forall|i: int, j: int|
                0 <= i < fv.len() && 0 <= j < fv.len() && i != j implies fv[i] != fv[j] by {
                assert(fv_before[i] == fv[i] && fv_before[j] == fv[j]);
            }
            assert forall|f: int| 0 <= f < frontier@.len() implies reached(d@, #[trigger] frontier@[f]@) by {
                assert(fv_before[f] == fv[f]);
                assert(fv[f] == frontier@[f]@);
            }
        }
        let ci = match find_distance(&d, current.as_str()) {
            Some(ci) => ci,
            None => {
                proof {
                    assert(false);
                }
                break;
            },
        };
        let cd = d[ci].distance;
        proof {
            assert forall|j: int| 0 <= j < ci implies dvs[j].0 != current@ by {
                assert(dvs[j].0 == d@[j].node@);
            }
            lemma_lookup_at(dvs, current@, ci as int);
            assert(lookup(dvs, current@) == Some(cd as nat));
        }
        if cd >= depth {
            proof {
                assert forall|m: nat|
                    #![trigger walk(e, depth as nat, dist_view(d@), fvs, m)]
                    walk(e, depth as nat, dv0, fv0, m + (t + 1)) == walk(e, depth as nat, dist_view(d@), fvs, m) by {
                    assert(walk(e, depth as nat, dv0, fv0, (m + 1) + t) == walk(e, depth as nat, dvs, nfb, m + 1));
                    assert(nfb.last() == current@);
                    assert(nfb.drop_last() =~= fvs);
                }
                t = t + 1;
                assert forall|k: int, b: Seq<char>|
                    0 <= k < d@.len() && d@[k].distance < depth && !fv.contains(d@[k].node@)
                        && adjacent(e, d@[k].node@, b) implies reached(d@, b) by {
                    if d@[k].node@ != current@ {
                        assert(!fv_before.contains(d@[k].node@));
                    } else {
                        assert(distance_nodes(d@)[k] == distance_nodes(d@)[ci as int]);
                    }
                }
            }
            continue;
        }
        let mut x: usize = 0;
        let ghost d0 = d@.len();
        let ghost f0 = frontier@.len();
        proof {
            assert(e.take(0) =~= Seq::<TraceEdgeView>::empty());
        }
        while x < es.len()
            invariant
                (dist_view(d@), names(frontier@)) == scan(dvs, fvs, current@, cd as nat, e.take(x as int)),
                lookup(dvs, current@) == Some(cd as nat),
                nfb == fvs.push(current@),
                forall|m: nat|
                    #![trigger walk(e, depth as nat, dvs, nfb, m)]
                    walk(e, depth as nat, dv0, fv0, m + t) == walk(e, depth as nat, dvs, nfb, m),
                d@.len() >= d0,
                d@.len() == d0 ==> frontier@.len() == f0,
                f0 < fv_before.len(),
                e == es@,
                u == endpoints(root@, e),
                0 <= ci < d@.len(),
                d@[ci as int].node@ == current@,
                d@[ci as int].distance == cd,
                cd < depth,
                x <= es.len(),
                d@.len() > 0,
                d@[0].node@ == root@,
                d@[0].distance == 0,
                distance_nodes(d@).no_duplicates(),
                forall|k: int| 0 <= k < d@.len() ==> d@[k].distance <= depth,
                forall|k: int| 0 <= k < d@.len() ==> u.contains(#[trigger] d@[k].node@),
                forall|k: int|
                    0 < k < d@.len() ==> d@[k].distance >= 1 && exists|j: int|
                        0 <= j < d@.len() && d@[j].distance + 1 == d@[k].distance && adjacent(
                            e,
                            d@[j].node@,
                            d@[k].node@,
                        ),
                forall|f: int| 0 <= f < frontier@.len() ==> reached(d@, #[trigger] frontier@[f]@),
                frontier@.map_values(|y: String| y@).no_duplicates(),
                !frontier@.map_values(|y: String| y@).contains(current@),
                forall|k: int, b: Seq<char>|
                    0 <= k < d@.len() && d@[k].distance < depth && d@[k].node@ != current@
                        && !frontier@.map_values(|y: String| y@).contains(d@[k].node@) && adjacent(
                        e,
                        d@[k].node@,
                        b,
                    ) ==> reached(d@, b),
                forall|k: int, b: Seq<char>|
                    0 <= k < x && ((e[k].from@ == current@ && e[k].to@ == b) || (e[k].to@
                        == current@ && e[k].from@ == b)) ==> reached(d@, b),
                d@.len() <= u.len(),
            decreases es.len() - x,
        {
            let edge = &es[x];
            let ghost prev = scan(dvs, fvs, current@, cd as nat, e.take(x as int));
            proof {
                assert(e.take(x + 1).drop_last() =~= e.take(x as int));
                assert(e.take(x + 1).last() == e[x as int]);
            }
            let neighbour = if str_eq(edge.from.as_str(), current.as_str()) {
                Some(owned(edge.to.as_str()))
            } else if str_eq(edge.to.as_str(), current.as_str()) {
                Some(owned(edge.from.as_str()))
            } else {
                None
            };
            proof {
                assert(neighbour_via(e[x as int], current@) == match neighbour {
                    Some(n) => Some(n@),
                    None => None::<Seq<char>>,
                });
            }
            match neighbour {
                None => {},
                Some(n) => {
                    match find_distance(&d, n.as_str()) {
                        Some(k) => {
                            proof {
                                lemma_lookup(dist_view(d@), n@);
                                if lookup(dist_view(d@), n@) is None {
                                    assert(dist_view(d@)[k as int].0 == n@);
                                }
                            }
                        },
                        None => {
                            proof {
                                lemma_lookup(dist_view(d@), n@);
                                if lookup(dist_view(d@), n@) is Some {
                                    let k = choose|k: int| 0 <= k < dist_view(d@).len() && dist_view(d@)[k].0 == n@
                                        && dist_view(d@)[k].1 == lookup(dist_view(d@), n@)->0
                                        && forall|j: int| 0 <= j < k ==> dist_view(d@)[j].0 != n@;
                                    assert(d@[k].node@ == n@);
                                }
                            }
                            let ghost old_d = d@;
                            let ghost old_f = frontier@;
                            proof {
                                assert(adjacent(e, current@, n@));
                                if e[x as int].from@ == current@ {
                                    assert(u[2 * x + 2] == e[x as int].to@);
                                } else {
                                    assert(u[2 * x + 1] == e[x as int].from@);
                                }
                                assert(u.contains(n@));
                            }
                            let ghost pd = dist_view(d@);
                            let ghost pf = names(frontier@);
                            d.push(TraceDistance { node: owned(n.as_str()), distance: cd + 1 });
                            frontier.push(n);
                            proof {
                                assert(dist_view(d@) =~= pd.push((n@, cd as nat + 1)));
                                assert(names(frontier@) =~= pf.push(n@));
                                let ofv = old_f.map_values(|y: String| y@);
                                let dn = distance_nodes(d@);
                                assert(dn =~= distance_nodes(old_d).push(n@));
                                assert forall|i: int, j: int|
                                    0 <= i < dn.len() && 0 <= j < dn.len() && i != j implies dn[i]
                                    != dn[j] by {
                                    if i < old_d.len() && j < old_d.len() {
                                        assert(distance_nodes(old_d)[i] == dn[i]);
                                        assert(distance_nodes(old_d)[j] == dn[j]);
                                    } else if i < old_d.len() {
                                        assert(old_d[i].node@ == dn[i]);
                                    } else {
                                        assert(old_d[j].node@ == dn[j]);
                                    }
                                }
                                let fv2 = frontier@.map_values(|y: String| y@);
                                assert(fv2 =~= ofv.push(n@));
                                assert(!ofv.contains(n@)) by {
                                    if ofv.contains(n@) {
                                        let f = choose|f: int| 0 <= f < ofv.len() && ofv[f] == n@;
                                        assert(reached(old_d, old_f[f]@));
                                    }
                                }
                                assert forall|i: int, j: int|
                                    0 <= i < fv2.len() && 0 <= j < fv2.len() && i != j implies fv2[i]
                                    != fv2[j] by {
                                    if i < old_f.len() && j < old_f.len() {
                                        assert(ofv[i] == fv2[i] && ofv[j] == fv2[j]);
                                    } else if i < old_f.len() {
                                        assert(ofv[i] == fv2[i]);
                                    } else {
                                        assert(ofv[j] == fv2[j]);
                                    }
                                }
                                assert(d@[old_d.len() as int].node@ == n@);
                                assert(reached(d@, n@));
                                assert forall|f: int|
                                    0 <= f < frontier@.len() implies reached(d@, #[trigger] frontier@[f]@) by {
                                    if f < old_f.len() {
                                        assert(reached(old_d, old_f[f]@));
                                        let k = choose|k: int| 0 <= k < old_d.len() && old_d[k].node@ == old_f[f]@;
                                        assert(d@[k] == old_d[k]);
                                    }
                                }
                                assert forall|k: int| 0 < k < d@.len() implies d@[k].distance >= 1
                                    && exists|j: int|
                                    0 <= j < d@.len() && d@[j].distance + 1 == d@[k].distance
                                        && adjacent(e, d@[j].node@, d@[k].node@) by {
                                    if k < old_d.len() {
                                        let j = choose|j: int|
                                            0 <= j < old_d.len() && old_d[j].distance + 1
                                                == old_d[k].distance && adjacent(
                                                e,
                                                old_d[j].node@,
                                                old_d[k].node@,
                                            );
                                        assert(d@[j] == old_d[j]);
                                    } else {
                                        assert(d@[ci as int] == old_d[ci as int]);
                                    }
                                }
                                assert forall|k: int, b: Seq<char>|
                                    0 <= k < d@.len() && d@[k].distance < depth && d@[k].node@
                                        != current@ && !fv2.contains(d@[k].node@) && adjacent(
                                        e,
                                        d@[k].node@,
                                        b,
                                    ) implies reached(d@, b) by {
                                    if k < old_d.len() {
                                        assert(d@[k] == old_d[k]);
                                        assert(!ofv.contains(old_d[k].node@)) by {
                                            if ofv.contains(old_d[k].node@) {
                                                let f = choose|f: int| 0 <= f < ofv.len() && ofv[f] == old_d[k].node@;
                                                assert(fv2[f] == old_d[k].node@);
                                            }
                                        }
                                        assert(reached(old_d, b));
                                        let j = choose|j: int| 0 <= j < old_d.len() && old_d[j].node@ == b;
                                        assert(d@[j] == old_d[j]);
                                    } else {
                                        assert(fv2[old_f.len() as int] == n@);
                                    }
                                }
                                assert forall|k: int, b: Seq<char>|
                                    0 <= k < x && ((e[k].from@ == current@ && e[k].to@ == b) || (
                                    e[k].to@ == current@ && e[k].from@ == b)) implies reached(d@, b) by {
                                    assert(reached(old_d, b));
                                    let j = choose|j: int| 0 <= j < old_d.len() && old_d[j].node@ == b;
                                    assert(d@[j] == old_d[j]);
                                }
                                lemma_bounded(d@, u);
                            }
                        },
                    }
                },
            }
            proof {
                assert forall|b: Seq<char>|
                    ((e[x as int].from@ == current@ && e[x as int].to@ == b) || (e[x as int].to@
                        == current@ && e[x as int].from@ == b)) implies reached(d@, b) by {
                    if e[x as int].from@ == current@ {
                        assert(b == e[x as int].to@);
                    } else {
                        assert(b == e[x as int].from@);
                    }
                }
            }
            proof {
                assert((dist_view(d@), names(frontier@)) == scan(dvs, fvs, current@, cd as nat, e.take(x + 1)));
            }
            x = x + 1;
        }
        proof {
            assert(e.take(es.len() as int) =~= e);
            assert forall|m: nat|
                #![trigger walk(e, depth as nat, dist_view(d@), names(frontier@), m)]
                walk(e, depth as nat, dv0, fv0, m + (t + 1)) == walk(e, depth as nat, dist_view(d@), names(frontier@), m) by {
                assert(walk(e, depth as nat, dv0, fv0, (m + 1) + t) == walk(e, depth as nat, dvs, nfb, m + 1));
                assert(nfb.last() == current@);
                assert(nfb.drop_last() =~= fvs);
            }
            t = t + 1;
        }
        proof {
            assert forall|k: int, b: Seq<char>|
                0 <= k < d@.len() && d@[k].distance < depth && !frontier@.map_values(
                    |y: String| y@,
                ).contains(d@[k].node@) && adjacent(e, d@[k].node@, b) implies reached(d@, b) by {
                if d@[k].node@ == current@ {
                    let j = choose|j: int|
                        0 <= j < e.len() && ((e[j].from@ == current@ && e[j].to@ == b) || (
                        e[j].to@ == current@ && e[j].from@ == b));
                }
            }
        }
    }
    proof {
        assert(walk(edges@, depth as nat, seq![(root@, 0nat)], seq![root@], t) == Some(dist_view(d@)));
    }
    d
}


/// The characters a readiness identity is split at.
pub open spec fn is_identity_separator(c: char) -> bool {
    c == '/' || c == '|' || c == ','
}

/// The segments of `s` between separators, empty ones included (as
/// `str::split` yields them).
pub open spec fn identity_segments(s: Seq<char>) -> Seq<Seq<char>>
    decreases s.len(),
{
    if s.len() == 0 {
        seq![Seq::empty()]
    } else {
        let parts = identity_segments(s.drop_last());
        if is_identity_separator(s.last()) {
            parts.push(Seq::empty())
        } else {
            parts.update(parts.len() - 1, parts.last().push(s.last()))
        }
    }
}

proof fn lemma_segments_nonempty(s: Seq<char>)
    ensures
        identity_segments(s).len() >= 1,
    decreases s.len(),
{
    if s.len() > 0 {
        lemma_segments_nonempty(s.drop_last());
    }
}

/// Whether a readiness subject identity names `expected`: exactly, after a
/// `criterion:` or `item:` prefix, or as one of its segments.
pub open spec fn spec_identity_matches(value: Seq<char>, expected: Seq<char>) -> bool {
    ||| value == expected
    ||| crate::text::starts_with(value, "criterion:"@) && value.skip(10) == expected
    ||| crate::text::starts_with(value, "item:"@) && value.skip(5) == expected
    ||| identity_segments(value).contains(expected)
}

fn any_segment_equals(value: &Vec<char>, expected: &Vec<char>) -> (r: bool)
    ensures
        r == identity_segments(value@).contains(expected@),
{
    let mut cur: Vec<char> = Vec::new();
    let mut found = false;
    let mut i: usize = 0;
    proof {
        assert(value@.take(0) =~= Seq::<char>::empty());
    }
    while i < value.len()
        invariant
            i <= value.len(),
            identity_segments(value@.take(i as int)).len() >= 1,
            cur@ == identity_segments(value@.take(i as int)).last(),
            found == (exists|k: int|
                0 <= k < identity_segments(value@.take(i as int)).len() - 1 && identity_segments(
                    value@.take(i as int),
                )[k] == expected@),
        decreases value.len() - i,
    {
        let c = value[i];
        let ghost before = identity_segments(value@.take(i as int));
        proof {
            assert(value@.take(i + 1).drop_last() =~= value@.take(i as int));
            assert(value@.take(i + 1).last() == c);
            lemma_segments_nonempty(value@.take(i + 1));
        }
        let ghost after = identity_segments(value@.take(i + 1));
        if c == '/' || c == '|' || c == ',' {
            let closed = crate::text::seq_eq(&cur, expected);
            proof {
                assert(after == before.push(Seq::empty()));
                if closed {
                    assert(after[before.len() - 1] == expected@);
                }
                if found {
                    let k = choose|k: int| 0 <= k < before.len() - 1 && before[k] == expected@;
                    assert(after[k] == before[k]);
                }
                assert(found || closed <==> exists|k: int|
                    0 <= k < after.len() - 1 && after[k] == expected@) by {
                    if exists|k: int| 0 <= k < after.len() - 1 && after[k] == expected@ {
                        let k = choose|k: int| 0 <= k < after.len() - 1 && after[k] == expected@;
                        if k < before.len() - 1 {
                            assert(before[k] == after[k]);
                        }
                    }
                }
            }
            found = found || closed;
            cur = Vec::new();
            proof {
                assert(cur@ =~= after.last());
            }
        } else {
            cur.push(c);
            proof {
                assert(after == before.update(before.len() - 1, before.last().push(c)));
                assert(cur@ =~= after.last());
                assert(found <==> exists|k: int| 0 <= k < after.len() - 1 && after[k] == expected@) by {
                    if found {
                        let k = choose|k: int| 0 <= k < before.len() - 1 && before[k] == expected@;
                        assert(after[k] == before[k]);
                    }
                    if exists|k: int| 0 <= k < after.len() - 1 && after[k] == expected@ {
                        let k = choose|k: int| 0 <= k < after.len() - 1 && after[k] == expected@;
                        assert(before[k] == after[k]);
                    }
                }
            }
        }
        i = i + 1;
    }
    proof {
        assert(value@.take(value.len() as int) =~= value@);
    }
    let last = crate::text::seq_eq(&cur, expected);
    proof {
        let segs = identity_segments(value@);
        assert(found || last <==> segs.contains(expected@)) by {
            if segs.contains(expected@) {
                let k = choose|k: int| 0 <= k < segs.len() && segs[k] == expected@;
                if k < segs.len() - 1 {
                } else {
                    assert(segs[k] == segs.last());
                }
            }
            if last {
                assert(segs[segs.len() - 1] == expected@);
            }
            if found {
                let k = choose|k: int| 0 <= k < segs.len() - 1 && segs[k] == expected@;
                assert(segs[k] == expected@);
            }
        }
    }
    found || last
}

fn strip_prefix_equals(value: &Vec<char>, prefix: &str, expected: &Vec<char>) -> (r: bool)
    ensures
        r == (crate::text::starts_with(value@, prefix@) && value@.skip(prefix@.len() as int)
            == expected@),
{
    let p = chars_of(prefix);
    if !crate::text::starts_with_exec(value, &p) {
        return false;
    }
    let rest = crate::text::suffix_from(value, p.len());
    assert(rest@ =~= value@.skip(p@.len() as int));
    crate::text::seq_eq(&rest, expected)
}

/// Whether the readiness subject identity `value` names `expected`.
pub fn readiness_identity_matches(value: &str, expected: &str) -> (r: bool)
    ensures
        r == spec_identity_matches(value@, expected@),
{
    let v = chars_of(value);
    let x = chars_of(expected);
    proof {
        reveal_strlit("criterion:");
        reveal_strlit("item:");
    }
    crate::text::seq_eq(&v, &x) || strip_prefix_equals(&v, "criterion:", &x)
        || strip_prefix_equals(&v, "item:", &x) || any_segment_equals(&v, &x)
}

} // verus!
