//! The bounded view of the trace graph: which reachable nodes are shown
//! under the node budget, in what order, and how many stay hidden.
use vstd::prelude::*;
use crate::sorted::SortedStrings;
use crate::text::{chars_of, compare_chars, seq_lt, str_eq, string_of};
use crate::trace::{reached, TraceDistance, TraceEdgeView, TraceEdges, TraceNodeView, TraceNodes};

verus! {

/// The ordering key of a reachable node: its priority (0 for the root, 1
/// for closure evidence, 2 otherwise), its distance, its lane rank, its
/// kind and its identity.
pub struct NodeKey {
    pub priority: usize,
    pub distance: usize,
    pub lane: usize,
    pub kind: Vec<char>,
    pub id: Vec<char>,
}

pub open spec fn key_view(k: NodeKey) -> (nat, nat, nat, Seq<char>, Seq<char>) {
    (k.priority as nat, k.distance as nat, k.lane as nat, k.kind@, k.id@)
}

/// Lexicographic order of node keys.
pub open spec fn key_lt(a: (nat, nat, nat, Seq<char>, Seq<char>), b: (nat, nat, nat, Seq<char>, Seq<char>)) -> bool {
    a.0 < b.0 || (a.0 == b.0 && (a.1 < b.1 || (a.1 == b.1 && (a.2 < b.2 || (a.2 == b.2 && (seq_lt(
        a.3,
        b.3,
    ) || (a.3 == b.3 && seq_lt(a.4, b.4))))))))
}

proof fn lemma_key_transitive(
    a: (nat, nat, nat, Seq<char>, Seq<char>),
    b: (nat, nat, nat, Seq<char>, Seq<char>),
    c: (nat, nat, nat, Seq<char>, Seq<char>),
)
    requires
        key_lt(a, b),
        key_lt(b, c),
    ensures
        key_lt(a, c),
{
    if a.0 == b.0 && b.0 == c.0 && a.1 == b.1 && b.1 == c.1 && a.2 == b.2 && b.2 == c.2 {
        if seq_lt(a.3, b.3) && seq_lt(b.3, c.3) {
            crate::text::lemma_lt_transitive(a.3, b.3, c.3);
        } else if a.3 == b.3 && b.3 == c.3 {
            crate::text::lemma_lt_transitive(a.4, b.4, c.4);
        }
    }
}

proof fn lemma_key_total(a: (nat, nat, nat, Seq<char>, Seq<char>), b: (nat, nat, nat, Seq<char>, Seq<char>))
    requires
        a.4 != b.4,
    ensures
        key_lt(a, b) || key_lt(b, a),
        !(key_lt(a, b) && key_lt(b, a)),
{
    crate::text::lemma_lt_total(a.3, b.3);
    crate::text::lemma_lt_total(a.4, b.4);
}

pub open spec fn keys_view(v: Seq<NodeKey>) -> Seq<(nat, nat, nat, Seq<char>, Seq<char>)> {
    v.map_values(|k: NodeKey| key_view(k))
}

/// Keys strictly increase along the sequence.
pub open spec fn keys_sorted(s: Seq<(nat, nat, nat, Seq<char>, Seq<char>)>) -> bool {
    forall|i: int, j: int| 0 <= i < j < s.len() ==> key_lt(s[i], s[j])
}

fn key_less(a: &NodeKey, b: &NodeKey) -> (r: bool)
    ensures
        r == key_lt(key_view(*a), key_view(*b)),
{
    if a.priority != b.priority {
        return a.priority < b.priority;
    }
    if a.distance != b.distance {
        return a.distance < b.distance;
    }
    if a.lane != b.lane {
        return a.lane < b.lane;
    }
    let c = compare_chars(&a.kind, &b.kind);
    if c != 0 {
        return c < 0;
    }
    compare_chars(&a.id, &b.id) < 0
}

/// Inserts `x`, whose identity is new, where the order of keys keeps.
fn insert_key(out: &mut Vec<NodeKey>, x: NodeKey)
    requires
        keys_sorted(keys_view(old(out)@)),
        forall|k: int| 0 <= k < old(out)@.len() ==> old(out)@[k].id@ != x.id@,
    ensures
        keys_sorted(keys_view(final(out)@)),
        exists|p: int| 0 <= p <= old(out)@.len() && final(out)@ == old(out)@.insert(p, x),
{
    let ghost ov = keys_view(out@);
    let mut p: usize = 0;
    while p < out.len()
        invariant
            p <= out.len(),
            ov == keys_view(out@),
            ov.len() == out@.len(),
            keys_sorted(ov),
            forall|k: int| 0 <= k < p ==> key_lt(ov[k], key_view(x)),
        ensures
            p <= out.len(),
            ov == keys_view(out@),
            forall|k: int| 0 <= k < p ==> key_lt(ov[k], key_view(x)),
            p < out.len() ==> !key_lt(ov[p as int], key_view(x)),
        decreases out.len() - p,
    {
        proof {
            assert(ov[p as int] == key_view(out@[p as int]));
        }
        if !key_less(&out[p], &x) {
            break;
        }
        p = p + 1;
    }
    proof {
        assert forall|k: int| p <= k < ov.len() implies key_lt(key_view(x), ov[k]) by {
            assert(ov[k] == key_view(out@[k]));
            assert(ov[p as int] == key_view(out@[p as int]));
            assert(ov[p as int].4 == old(out)@[p as int].id@);
            lemma_key_total(ov[p as int], key_view(x));
            if k > p {
                lemma_key_transitive(key_view(x), ov[p as int], ov[k]);
            }
        }
    }
    let ghost before = out@;
    out.insert(p, x);
    proof {
        let nv = keys_view(out@);
        assert(nv =~= ov.insert(p as int, key_view(x)));
        assert forall|i: int, j: int| 0 <= i < j < nv.len() implies key_lt(nv[i], nv[j]) by {
            if j < p {
                assert(nv[i] == ov[i] && nv[j] == ov[j]);
            } else if j == p {
                assert(nv[i] == ov[i]);
            } else if i == p {
                assert(nv[j] == ov[j - 1]);
            } else if i < p {
                assert(nv[i] == ov[i] && nv[j] == ov[j - 1]);
            } else {
                assert(nv[i] == ov[i - 1] && nv[j] == ov[j - 1]);
            }
        }
    }
}

// ---------------------------------------------------------------------------
// The ordered reachable nodes

/// The priority of node `id`.
pub open spec fn node_priority(id: Seq<char>, root: Seq<char>, evidence: Set<Seq<char>>) -> nat {
    if id == root {
        0
    } else if evidence.contains(id) {
        1
    } else {
        2
    }
}

/// The distance recorded for `id` (its first entry).
pub open spec fn recorded_distance(d: Seq<TraceDistance>, id: Seq<char>, k: int) -> bool {
    0 <= k < d.len() && d[k].node@ == id && forall|j: int| 0 <= j < k ==> d[j].node@ != id
}

/// The nodes that take part in the semantic order: reachable and not
/// claims.
pub open spec fn semantic_candidate(n: TraceNodeView, d: Seq<TraceDistance>) -> bool {
    reached(d, n.id@) && n.kind@ != "claim"@
}

/// The key of node `n`.
pub open spec fn node_key_of(
    n: TraceNodeView,
    d: Seq<TraceDistance>,
    root: Seq<char>,
    evidence: Set<Seq<char>>,
    k: (nat, nat, nat, Seq<char>, Seq<char>),
) -> bool {
    &&& k.0 == node_priority(n.id@, root, evidence)
    &&& exists|j: int| recorded_distance(d, n.id@, j) && k.1 == d[j].distance
    &&& k.2 == crate::trace::spec_lane_rank(n.lane@)
    &&& k.3 == n.kind@
    &&& k.4 == n.id@
}

/// `key` is the key of a semantic candidate among the first `upto` nodes.
pub open spec fn key_of_candidate(
    nodes: Seq<TraceNodeView>,
    d: Seq<TraceDistance>,
    root: Seq<char>,
    evidence: Set<Seq<char>>,
    upto: int,
    key: (nat, nat, nat, Seq<char>, Seq<char>),
) -> bool {
    exists|i: int|
        0 <= i < upto && #[trigger] semantic_candidate(nodes[i], d) && node_key_of(
            nodes[i],
            d,
            root,
            evidence,
            key,
        )
}

/// Every key of `out` is the key of a semantic candidate among the first
/// `upto` nodes.
pub open spec fn keys_drawn_from(
    nodes: Seq<TraceNodeView>,
    d: Seq<TraceDistance>,
    root: Seq<char>,
    evidence: Set<Seq<char>>,
    upto: int,
    out: Seq<(nat, nat, nat, Seq<char>, Seq<char>)>,
) -> bool {
    forall|k: int| 0 <= k < out.len() ==> #[trigger] key_of_candidate(nodes, d, root, evidence, upto, out[k])
}

/// A key drawn from the first `a` nodes is drawn from the first `b >= a`.
proof fn lemma_candidate_widen(
    nodes: Seq<TraceNodeView>,
    d: Seq<TraceDistance>,
    root: Seq<char>,
    evidence: Set<Seq<char>>,
    a: int,
    b: int,
    key: (nat, nat, nat, Seq<char>, Seq<char>),
)
    requires
        a <= b,
        key_of_candidate(nodes, d, root, evidence, a, key),
    ensures
        key_of_candidate(nodes, d, root, evidence, b, key),
{
    let j = choose|j: int|
        0 <= j < a && #[trigger] semantic_candidate(nodes[j], d) && node_key_of(nodes[j], d, root, evidence, key);
    assert(0 <= j < b && semantic_candidate(nodes[j], d) && node_key_of(nodes[j], d, root, evidence, key));
}

/// Every semantic candidate among the first `upto` nodes has its key in
/// `out`.
pub open spec fn candidates_listed(
    nodes: Seq<TraceNodeView>,
    d: Seq<TraceDistance>,
    upto: int,
    out: Seq<(nat, nat, nat, Seq<char>, Seq<char>)>,
) -> bool {
    forall|i: int|
        0 <= i < upto && #[trigger] semantic_candidate(nodes[i], d) ==> exists|k: int|
            0 <= k < out.len() && #[trigger] out[k].4 == nodes[i].id@
}

/// `out` holds the keys of exactly the semantic candidates among `nodes`,
/// each once, in key order.
pub open spec fn semantic_order(
    nodes: Seq<TraceNodeView>,
    d: Seq<TraceDistance>,
    root: Seq<char>,
    evidence: Set<Seq<char>>,
    out: Seq<(nat, nat, nat, Seq<char>, Seq<char>)>,
) -> bool {
    &&& keys_sorted(out)
    &&& keys_drawn_from(nodes, d, root, evidence, nodes.len() as int, out)
    &&& candidates_listed(nodes, d, nodes.len() as int, out)
}

fn first_distance(d: &Vec<TraceDistance>, id: &str) -> (r: Option<usize>)
    ensures
        r matches Some(j) ==> recorded_distance(d@, id@, j as int),
        r is None ==> !reached(d@, id@),
{
    let mut i: usize = 0;
    while i < d.len()
        invariant
            i <= d.len(),
            forall|k: int| 0 <= k < i ==> d@[k].node@ != id@,
        decreases d.len() - i,
    {
        if str_eq(d[i].node.as_str(), id) {
            return Some(i);
        }
        i = i + 1;
    }
    None
}

/// A key drawn from the first `i` nodes never carries the identity of node
/// `i`, since identities strictly increase.
proof fn lemma_fresh_identity(
    nodes: Seq<TraceNodeView>,
    d: Seq<TraceDistance>,
    root: Seq<char>,
    evidence: Set<Seq<char>>,
    i: int,
    out: Seq<(nat, nat, nat, Seq<char>, Seq<char>)>,
)
    requires
        0 <= i < nodes.len(),
        crate::trace::ids_sorted(crate::trace::node_ids(nodes)),
        keys_drawn_from(nodes, d, root, evidence, i, out),
    ensures
        forall|k: int| 0 <= k < out.len() ==> out[k].4 != nodes[i].id@,
{
    assert forall|k: int| 0 <= k < out.len() implies out[k].4 != nodes[i].id@ by {
        assert(key_of_candidate(nodes, d, root, evidence, i, out[k]));
        let j = choose|j: int|
            0 <= j < i && #[trigger] semantic_candidate(nodes[j], d) && node_key_of(
                nodes[j],
                d,
                root,
                evidence,
                out[k],
            );
        let ids = crate::trace::node_ids(nodes);
        assert(ids[j] == nodes[j].id@ && ids[i] == nodes[i].id@);
        crate::text::lemma_lt_irreflexive(nodes[j].id@);
    }
}

/// Inserting the key of candidate `i` keeps both halves of the order.
proof fn lemma_step_insert(
    nodes: Seq<TraceNodeView>,
    d: Seq<TraceDistance>,
    root: Seq<char>,
    evidence: Set<Seq<char>>,
    i: int,
    bv: Seq<(nat, nat, nat, Seq<char>, Seq<char>)>,
    p: int,
    key: (nat, nat, nat, Seq<char>, Seq<char>),
)
    requires
        0 <= i < nodes.len(),
        0 <= p <= bv.len(),
        semantic_candidate(nodes[i], d),
        node_key_of(nodes[i], d, root, evidence, key),
        keys_drawn_from(nodes, d, root, evidence, i, bv),
        candidates_listed(nodes, d, i, bv),
    ensures
        keys_drawn_from(nodes, d, root, evidence, i + 1, bv.insert(p, key)),
        candidates_listed(nodes, d, i + 1, bv.insert(p, key)),
{
    let nv = bv.insert(p, key);
    assert forall|k: int| 0 <= k < nv.len() implies #[trigger] key_of_candidate(nodes, d, root, evidence, i + 1, nv[k]) by {
        if k < p {
            assert(nv[k] == bv[k]);
            assert(key_of_candidate(nodes, d, root, evidence, i, bv[k]));
            lemma_candidate_widen(nodes, d, root, evidence, i, i + 1, bv[k]);
        } else if k == p {
            assert(nv[k] == key);
            assert(0 <= i < i + 1 && semantic_candidate(nodes[i], d) && node_key_of(nodes[i], d, root, evidence, key));
        } else {
            assert(nv[k] == bv[k - 1]);
            assert(key_of_candidate(nodes, d, root, evidence, i, bv[k - 1]));
            lemma_candidate_widen(nodes, d, root, evidence, i, i + 1, bv[k - 1]);
        }
    }
    assert forall|j: int| 0 <= j < i + 1 && #[trigger] semantic_candidate(nodes[j], d) implies exists|k: int|
        0 <= k < nv.len() && #[trigger] nv[k].4 == nodes[j].id@ by {
        if j == i {
            assert(nv[p].4 == nodes[j].id@);
        } else {
            let k = choose|k: int| 0 <= k < bv.len() && #[trigger] bv[k].4 == nodes[j].id@;
            if k < p {
                assert(nv[k] == bv[k]);
                assert(nv[k].4 == nodes[j].id@);
            } else {
                assert(nv[k + 1] == bv[k]);
                assert(nv[k + 1].4 == nodes[j].id@);
            }
        }
    }
}

/// Passing over a node that is no candidate keeps both halves of the order.
proof fn lemma_step_skip(
    nodes: Seq<TraceNodeView>,
    d: Seq<TraceDistance>,
    root: Seq<char>,
    evidence: Set<Seq<char>>,
    i: int,
    out: Seq<(nat, nat, nat, Seq<char>, Seq<char>)>,
)
    requires
        0 <= i < nodes.len(),
        !semantic_candidate(nodes[i], d),
        keys_drawn_from(nodes, d, root, evidence, i, out),
        candidates_listed(nodes, d, i, out),
    ensures
        keys_drawn_from(nodes, d, root, evidence, i + 1, out),
        candidates_listed(nodes, d, i + 1, out),
{
    assert forall|k: int| 0 <= k < out.len() implies #[trigger] key_of_candidate(nodes, d, root, evidence, i + 1, out[k]) by {
        assert(key_of_candidate(nodes, d, root, evidence, i, out[k]));
        lemma_candidate_widen(nodes, d, root, evidence, i, i + 1, out[k]);
    }
    assert(keys_drawn_from(nodes, d, root, evidence, i + 1, out));
}

/// How many of `ns` satisfy `p`.
pub open spec fn count_nodes(ns: Seq<TraceNodeView>, p: spec_fn(TraceNodeView) -> bool) -> nat
    decreases ns.len(),
{
    if ns.len() == 0 {
        0
    } else {
        count_nodes(ns.drop_last(), p) + if p(ns.last()) {
            1nat
        } else {
            0nat
        }
    }
}

proof fn lemma_count_nodes_step(ns: Seq<TraceNodeView>, i: int, p: spec_fn(TraceNodeView) -> bool)
    requires
        0 <= i < ns.len(),
    ensures
        count_nodes(ns.take(i + 1), p) == count_nodes(ns.take(i), p) + if p(ns[i]) {
            1nat
        } else {
            0nat
        },
{
    assert(ns.take(i + 1).drop_last() =~= ns.take(i));
    assert(ns.take(i + 1).last() == ns[i]);
}

/// The semantic candidates of `nodes` (identities strictly increasing), in
/// the order the view shows them first: the root, then closure evidence,
/// then the rest; nearer first; then by lane, kind and identity.
pub fn semantic_ordered(
    nodes: &Vec<TraceNodeView>,
    distances: &Vec<TraceDistance>,
    root: &str,
    evidence: &SortedStrings,
) -> (r: Vec<NodeKey>)
    requires
        crate::trace::ids_sorted(crate::trace::node_ids(nodes@)),
    ensures
        semantic_order(nodes@, distances@, root@, evidence@.to_set(), keys_view(r@)),
        r@.len() == count_nodes(nodes@, |n: TraceNodeView| semantic_candidate(n, distances@)),
{
    let ghost ev = evidence@.to_set();
    let ghost cand = |n: TraceNodeView| semantic_candidate(n, distances@);
    let mut out: Vec<NodeKey> = Vec::new();
    let mut i: usize = 0;
    proof {
        assert(keys_view(out@) =~= Seq::empty());
        assert(nodes@.take(0) =~= Seq::<TraceNodeView>::empty());
    }
    while i < nodes.len()
        invariant
            i <= nodes.len(),
            ev == evidence@.to_set(),
            cand == (|n: TraceNodeView| semantic_candidate(n, distances@)),
            out@.len() == count_nodes(nodes@.take(i as int), cand),
            crate::trace::ids_sorted(crate::trace::node_ids(nodes@)),
            keys_sorted(keys_view(out@)),
            keys_drawn_from(nodes@, distances@, root@, ev, i as int, keys_view(out@)),
            candidates_listed(nodes@, distances@, i as int, keys_view(out@)),
        decreases nodes.len() - i,
    {
        let n = &nodes[i];
        let is_claim = str_eq(n.kind.as_str(), "claim");
        let found = first_distance(distances, n.id.as_str());
        let mut inserted = false;
        proof {
            lemma_count_nodes_step(nodes@, i as int, cand);
        }
        if let Some(j) = found {
            if !is_claim {
                let priority: usize = if str_eq(n.id.as_str(), root) {
                    0
                } else if evidence.contains(n.id.as_str()) {
                    1
                } else {
                    2
                };
                let key = NodeKey {
                    priority,
                    distance: distances[j].distance,
                    lane: crate::trace::trace_lane_rank(n.lane.as_str()),
                    kind: chars_of(n.kind.as_str()),
                    id: chars_of(n.id.as_str()),
                };
                let ghost before = out@;
                proof {
                    assert(ev.contains(n.id@) == evidence@.contains(n.id@));
                    assert(node_key_of(*n, distances@, root@, ev, key_view(key)));
                    lemma_fresh_identity(nodes@, distances@, root@, ev, i as int, keys_view(out@));
                    assert forall|k: int| 0 <= k < out@.len() implies out@[k].id@ != key.id@ by {
                        assert(keys_view(out@)[k] == key_view(out@[k]));
                    }
                }
                insert_key(&mut out, key);
                proof {
                    let p = choose|p: int| 0 <= p <= before.len() && out@ == before.insert(p, key);
                    assert(keys_view(out@) =~= keys_view(before).insert(p, key_view(key)));
                    lemma_step_insert(nodes@, distances@, root@, ev, i as int, keys_view(before), p, key_view(key));
                }
                inserted = true;
            }
        }
        if !inserted {
            proof {
                assert(!semantic_candidate(nodes@[i as int], distances@));
                lemma_step_skip(nodes@, distances@, root@, ev, i as int, keys_view(out@));
            }
        }
        i = i + 1;
    }
    proof {
        assert(nodes@.take(nodes@.len() as int) =~= nodes@);
    }
    out
}

// ---------------------------------------------------------------------------
// The bounded edges

/// Whether the node with identity `id` is a claim.
pub open spec fn is_claim_node(nodes: Seq<TraceNodeView>, id: Seq<char>) -> bool {
    exists|k: int| 0 <= k < nodes.len() && nodes[k].id@ == id && nodes[k].kind@ == "claim"@
}

/// Whether an end of `e` is a claim.
pub open spec fn touches_claim(nodes: Seq<TraceNodeView>, e: TraceEdgeView) -> bool {
    is_claim_node(nodes, e.from@) || is_claim_node(nodes, e.to@)
}

/// Whether both ends of `e` are in the neighbourhood `d`.
pub open spec fn edge_reached(d: Seq<TraceDistance>, e: TraceEdgeView) -> bool {
    reached(d, e.from@) && reached(d, e.to@)
}

/// A reachable edge between semantic nodes, both of them shown.
pub open spec fn semantic_edge(
    nodes: Seq<TraceNodeView>,
    d: Seq<TraceDistance>,
    shown: Set<Seq<char>>,
    e: TraceEdgeView,
) -> bool {
    !touches_claim(nodes, e) && edge_reached(d, e) && shown.contains(e.from@) && shown.contains(e.to@)
}

/// A reachable edge at a claim, both ends shown.
pub open spec fn claim_edge(
    nodes: Seq<TraceNodeView>,
    d: Seq<TraceDistance>,
    shown: Set<Seq<char>>,
    e: TraceEdgeView,
) -> bool {
    touches_claim(nodes, e) && edge_reached(d, e) && shown.contains(e.from@) && shown.contains(e.to@)
}

/// A reachable edge that the view accounts for: every one in exact mode,
/// those away from claims otherwise.
pub open spec fn counted_edge(
    nodes: Seq<TraceNodeView>,
    d: Seq<TraceDistance>,
    exact: bool,
    e: TraceEdgeView,
) -> bool {
    edge_reached(d, e) && (exact || !touches_claim(nodes, e))
}

/// How many edges of `es` satisfy `p`.
pub open spec fn count_of(es: Seq<TraceEdgeView>, p: spec_fn(TraceEdgeView) -> bool) -> nat
    decreases es.len(),
{
    if es.len() == 0 {
        0
    } else {
        count_of(es.drop_last(), p) + if p(es.last()) {
            1nat
        } else {
            0nat
        }
    }
}

/// Whether the edge at `k` is shown: one of the first `budget` semantic
/// edges, or in exact mode one of the first `rest` claim edges.
pub open spec fn edge_kept(
    es: Seq<TraceEdgeView>,
    k: int,
    sem: spec_fn(TraceEdgeView) -> bool,
    clm: spec_fn(TraceEdgeView) -> bool,
    budget: nat,
    rest: nat,
    exact: bool,
) -> bool {
    (sem(es[k]) && count_of(es.take(k), sem) < budget) || (exact && clm(es[k]) && count_of(
        es.take(k),
        clm,
    ) < rest)
}

/// The shown edges among the first `n`, in identity order.
pub open spec fn kept_edges(
    es: Seq<TraceEdgeView>,
    n: int,
    sem: spec_fn(TraceEdgeView) -> bool,
    clm: spec_fn(TraceEdgeView) -> bool,
    budget: nat,
    rest: nat,
    exact: bool,
) -> Seq<TraceEdgeView>
    decreases n,
{
    if n <= 0 {
        Seq::empty()
    } else {
        kept_edges(es, n - 1, sem, clm, budget, rest, exact) + if edge_kept(
            es,
            n - 1,
            sem,
            clm,
            budget,
            rest,
            exact,
        ) {
            seq![es[n - 1]]
        } else {
            Seq::empty()
        }
    }
}

proof fn lemma_count_step(es: Seq<TraceEdgeView>, k: int, p: spec_fn(TraceEdgeView) -> bool)
    requires
        0 <= k < es.len(),
    ensures
        count_of(es.take(k + 1), p) == count_of(es.take(k), p) + if p(es[k]) {
            1nat
        } else {
            0nat
        },
{
    assert(es.take(k + 1).drop_last() =~= es.take(k));
    assert(es.take(k + 1).last() == es[k]);
}

/// Whether node `id` is a claim.
fn node_is_claim(nodes: &TraceNodes, id: &str) -> (r: bool)
    ensures
        r == is_claim_node(nodes@, id@),
{
    let ns = nodes.entries();
    let mut i: usize = 0;
    while i < ns.len()
        invariant
            i <= ns.len(),
            ns@ == nodes@,
            forall|k: int| 0 <= k < i ==> !(ns@[k].id@ == id@ && ns@[k].kind@ == "claim"@),
        decreases ns.len() - i,
    {
        if str_eq(ns[i].id.as_str(), id) && str_eq(ns[i].kind.as_str(), "claim") {
            return true;
        }
        i = i + 1;
    }
    false
}

/// A field-for-field copy of an edge.
fn copy_edge(e: &TraceEdgeView) -> (r: TraceEdgeView)
    ensures
        r == *e,
{
    let exact_claim = match &e.exact_claim {
        Some(c) => Some(c.clone()),
        None => None,
    };
    TraceEdgeView {
        id: e.id.clone(),
        from: e.from.clone(),
        to: e.to.clone(),
        relation: e.relation.clone(),
        display_label: e.display_label.clone(),
        exact_claim,
    }
}

/// The edges the bounded trace view shows, and how many accounted edges it
/// leaves out.  In identity order: the first `edge_budget` edges between
/// shown semantic nodes, then in exact mode, while the budget lasts, the
/// edges at shown claims.  Hidden are the accounted reachable edges beyond
/// the shown ones.
pub fn select_trace_edges(
    edges: &TraceEdges,
    nodes: &TraceNodes,
    distances: &Vec<TraceDistance>,
    semantic_shown: &SortedStrings,
    shown: &SortedStrings,
    exact: bool,
    edge_budget: usize,
) -> (r: (Vec<TraceEdgeView>, usize))
    ensures
        ({
            let sem = |e: TraceEdgeView| semantic_edge(nodes@, distances@, semantic_shown@.to_set(), e);
            let clm = |e: TraceEdgeView| claim_edge(nodes@, distances@, shown@.to_set(), e);
            let total = count_of(edges@, sem);
            let first = if total < edge_budget { total } else { edge_budget as nat };
            let rest = (edge_budget - first) as nat;
            &&& r.0@ == kept_edges(edges@, edges@.len() as int, sem, clm, edge_budget as nat, rest, exact)
            &&& r.0@.len() <= edge_budget
            &&& r.1 as int == vstd::math::max(
                0,
                count_of(edges@, |e: TraceEdgeView| counted_edge(nodes@, distances@, exact, e)) - r.0@.len(),
            )
        }),
{
    let es = edges.entries();
    let ghost sem = |e: TraceEdgeView| semantic_edge(nodes@, distances@, semantic_shown@.to_set(), e);
    let ghost clm = |e: TraceEdgeView| claim_edge(nodes@, distances@, shown@.to_set(), e);
    let ghost cnt = |e: TraceEdgeView| counted_edge(nodes@, distances@, exact, e);
    // First pass: how many semantic edges there are, and how many count.
    let mut semantic_total: usize = 0;
    let mut counted: usize = 0;
    let mut i: usize = 0;
    proof {
        assert(es@.take(0) =~= Seq::<TraceEdgeView>::empty());
    }
    while i < es.len()
        invariant
            i <= es.len(),
            es@ == edges@,
            semantic_total == count_of(es@.take(i as int), sem),
            counted == count_of(es@.take(i as int), cnt),
            semantic_total <= i,
            counted <= i,
            sem == (|e: TraceEdgeView| semantic_edge(nodes@, distances@, semantic_shown@.to_set(), e)),
            cnt == (|e: TraceEdgeView| counted_edge(nodes@, distances@, exact, e)),
        decreases es.len() - i,
    {
        let e = &es[i];
        let from_claim = node_is_claim(nodes, e.from.as_str());
        let to_claim = node_is_claim(nodes, e.to.as_str());
        let touches = from_claim || to_claim;
        let reached_both = first_distance(distances, e.from.as_str()).is_some()
            && first_distance(distances, e.to.as_str()).is_some();
        proof {
            lemma_count_step(es@, i as int, sem);
            lemma_count_step(es@, i as int, cnt);
        }
        if !touches && reached_both && semantic_shown.contains(e.from.as_str())
            && semantic_shown.contains(e.to.as_str()) {
            semantic_total = semantic_total + 1;
        }
        if reached_both && (exact || !touches) {
            counted = counted + 1;
        }
        i = i + 1;
    }
    proof {
        assert(es@.take(es@.len() as int) =~= es@);
    }
    let first: usize = if semantic_total < edge_budget {
        semantic_total
    } else {
        edge_budget
    };
    let rest: usize = edge_budget - first;
    // Second pass: the shown edges.
    let mut out: Vec<TraceEdgeView> = Vec::new();
    let mut sem_seen: usize = 0;
    let mut clm_seen: usize = 0;
    let mut j: usize = 0;
    proof {
        assert(out@ =~= kept_edges(es@, 0, sem, clm, edge_budget as nat, rest as nat, exact));
    }
    while j < es.len()
        invariant
            j <= es.len(),
            es@ == edges@,
            sem_seen == count_of(es@.take(j as int), sem),
            clm_seen == count_of(es@.take(j as int), clm),
            sem_seen <= j,
            clm_seen <= j,
            out@ == kept_edges(es@, j as int, sem, clm, edge_budget as nat, rest as nat, exact),
            out@.len() <= j,
            sem == (|e: TraceEdgeView| semantic_edge(nodes@, distances@, semantic_shown@.to_set(), e)),
            clm == (|e: TraceEdgeView| claim_edge(nodes@, distances@, shown@.to_set(), e)),
        decreases es.len() - j,
    {
        let e = &es[j];
        let from_claim = node_is_claim(nodes, e.from.as_str());
        let to_claim = node_is_claim(nodes, e.to.as_str());
        let touches = from_claim || to_claim;
        let reached_both = first_distance(distances, e.from.as_str()).is_some()
            && first_distance(distances, e.to.as_str()).is_some();
        let is_sem = !touches && reached_both && semantic_shown.contains(e.from.as_str())
            && semantic_shown.contains(e.to.as_str());
        let is_clm = touches && reached_both && shown.contains(e.from.as_str()) && shown.contains(
            e.to.as_str(),
        );
        proof {
            lemma_count_step(es@, j as int, sem);
            lemma_count_step(es@, j as int, clm);
            assert(is_sem == sem(es@[j as int]));
            assert(is_clm == clm(es@[j as int]));
        }
        if (is_sem && sem_seen < edge_budget) || (exact && is_clm && clm_seen < rest) {
            out.push(copy_edge(e));
        }
        if is_sem {
            sem_seen = sem_seen + 1;
        }
        if is_clm {
            clm_seen = clm_seen + 1;
        }
        j = j + 1;
    }
    proof {
        assert forall|e: TraceEdgeView| !(#[trigger] sem(e) && clm(e)) by {}
        lemma_kept_len(es@, es@.len() as int, sem, clm, edge_budget as nat, rest as nat, exact);
        assert(es@.take(es@.len() as int) =~= es@);
    }
    let hidden: usize = if counted > out.len() {
        counted - out.len()
    } else {
        0
    };
    (out, hidden)
}

// ---------------------------------------------------------------------------
// The shown semantic nodes

/// The identities of the first `budget` keys of `ordered`.
pub open spec fn leading_ids(ordered: Seq<(nat, nat, nat, Seq<char>, Seq<char>)>, budget: nat) -> Set<Seq<char>> {
    let m = if budget < ordered.len() { budget as int } else { ordered.len() as int };
    ordered.take(m).map_values(|k: (nat, nat, nat, Seq<char>, Seq<char>)| k.4).to_set()
}

/// `e` is the least identity of `s`.
pub open spec fn least_of(s: Set<Seq<char>>, e: Seq<char>) -> bool {
    s.contains(e) && forall|f: Seq<char>| #[trigger] s.contains(f) && f != e ==> seq_lt(e, f)
}

/// The semantic nodes shown: the identities of the first `budget` keys;
/// when the root is not among them it is added, in place of the least of
/// them when they already fill the budget.
pub open spec fn semantic_shown_set(
    ordered: Seq<(nat, nat, nat, Seq<char>, Seq<char>)>,
    root: Seq<char>,
    budget: nat,
) -> Set<Seq<char>> {
    let t = leading_ids(ordered, budget);
    if t.contains(root) {
        t
    } else if t.len() >= budget && t.len() > 0 {
        t.remove(choose|e: Seq<char>| least_of(t, e)).insert(root)
    } else {
        t.insert(root)
    }
}

proof fn lemma_sorted_no_duplicates(ids: Seq<Seq<char>>)
    requires
        crate::trace::ids_sorted(ids),
    ensures
        ids.no_duplicates(),
        ids.to_set().len() == ids.len(),
{
    assert forall|i: int, j: int| 0 <= i < ids.len() && 0 <= j < ids.len() && i != j implies ids[i] != ids[j] by {
        crate::text::lemma_lt_irreflexive(ids[i]);
    }
    ids.unique_seq_to_set();
}

/// The semantic nodes shown under `node_budget`, from the ordered keys.
pub fn shown_semantic(ordered: &Vec<NodeKey>, root: &str, node_budget: usize) -> (r: SortedStrings)
    ensures
        r@.to_set() == semantic_shown_set(keys_view(ordered@), root@, node_budget as nat),
        crate::trace::ids_sorted(r@),
{
    let ghost kv = keys_view(ordered@);
    let m: usize = if node_budget < ordered.len() {
        node_budget
    } else {
        ordered.len()
    };
    let mut shown = SortedStrings::new();
    let mut k: usize = 0;
    proof {
        assert(kv.take(0).map_values(|x: (nat, nat, nat, Seq<char>, Seq<char>)| x.4) =~= Seq::empty());
        assert(shown@.to_set() =~= Set::empty());
    }
    while k < m
        invariant
            k <= m,
            m <= ordered.len(),
            kv == keys_view(ordered@),
            crate::trace::ids_sorted(shown@),
            shown@.to_set() == kv.take(k as int).map_values(
                |x: (nat, nat, nat, Seq<char>, Seq<char>)| x.4,
            ).to_set(),
        decreases m - k,
    {
        let id = string_of(&ordered[k].id);
        shown.insert(id.as_str());
        proof {
            let f = |x: (nat, nat, nat, Seq<char>, Seq<char>)| x.4;
            assert(kv[k as int].4 == ordered@[k as int].id@);
            assert(kv.take(k + 1).map_values(f) =~= kv.take(k as int).map_values(f).push(kv[k as int].4));
            kv.take(k as int).map_values(f).lemma_push_to_set_commute(kv[k as int].4);
        }
        k = k + 1;
    }
    let ghost t = shown@.to_set();
    assert(t == leading_ids(kv, node_budget as nat));
    if !shown.contains(root) {
        let n = shown.len();
        proof {
            lemma_sorted_no_duplicates(shown@);
        }
        if n >= node_budget && n > 0 {
            let ghost before = shown@;
            proof {
                let e0 = before[0];
                assert(least_of(t, e0)) by {
                    assert forall|f: Seq<char>| #[trigger] t.contains(f) && f != e0 implies seq_lt(e0, f) by {
                        let j = choose|j: int| 0 <= j < before.len() && before[j] == f;
                        assert(j != 0);
                    }
                }
                let c = choose|e: Seq<char>| least_of(t, e);
                crate::text::lemma_lt_total(e0, c);
                assert(c == e0);
            }
            shown.remove_first();
            proof {
                assert(crate::trace::ids_sorted(shown@)) by {
                    assert forall|a: int, b: int| 0 <= a < b < shown@.len() implies seq_lt(shown@[a], shown@[b]) by {
                        assert(shown@[a] == before[a + 1] && shown@[b] == before[b + 1]);
                    }
                }
                assert(shown@.to_set() =~= t.remove(before[0])) by {
                    assert forall|x: Seq<char>| shown@.to_set().contains(x) implies t.remove(before[0]).contains(x) by {
                        let j = choose|j: int| 0 <= j < shown@.len() && shown@[j] == x;
                        assert(before[j + 1] == x);
                    }
                    assert forall|x: Seq<char>| t.remove(before[0]).contains(x) implies shown@.to_set().contains(x) by {
                        let j = choose|j: int| 0 <= j < before.len() && before[j] == x;
                        assert(j != 0);
                        assert(shown@[j - 1] == x);
                    }
                }
            }
        }
        shown.insert(root);
    }
    shown
}

// ---------------------------------------------------------------------------
// The claims and the shown nodes

/// Whether `e` is a claim edge into `id`.
pub open spec fn claim_edge_into(e: TraceEdgeView, id: Seq<char>) -> bool {
    e.to@ == id && e.relation@ == "claim"@
}

/// `k` is the first claim edge into `id`.
pub open spec fn first_claim_edge(es: Seq<TraceEdgeView>, id: Seq<char>, k: int) -> bool {
    0 <= k < es.len() && claim_edge_into(es[k], id) && forall|j: int|
        0 <= j < k ==> !claim_edge_into(#[trigger] es[j], id)
}

/// Where the claim `id` hangs: the source of the first claim edge into it,
/// or the empty identity.
pub open spec fn claim_source(es: Seq<TraceEdgeView>, id: Seq<char>) -> Seq<char> {
    if exists|k: int| first_claim_edge(es, id, k) {
        es[choose|k: int| first_claim_edge(es, id, k)].from@
    } else {
        Seq::empty()
    }
}

/// A claim node that is reachable and hangs at a shown node.
pub open spec fn claim_listed(
    n: TraceNodeView,
    es: Seq<TraceEdgeView>,
    d: Seq<TraceDistance>,
    shown: Set<Seq<char>>,
) -> bool {
    n.kind@ == "claim"@ && reached(d, n.id@) && shown.contains(claim_source(es, n.id@))
}

/// The identities of the listed claims among `ns`, in order.
pub open spec fn listed_claims(
    ns: Seq<TraceNodeView>,
    es: Seq<TraceEdgeView>,
    d: Seq<TraceDistance>,
    shown: Set<Seq<char>>,
) -> Seq<Seq<char>>
    decreases ns.len(),
{
    if ns.len() == 0 {
        Seq::empty()
    } else {
        listed_claims(ns.drop_last(), es, d, shown) + if claim_listed(ns.last(), es, d, shown) {
            seq![ns.last().id@]
        } else {
            Seq::empty()
        }
    }
}

fn find_claim_source(edges: &TraceEdges, id: &str) -> (r: String)
    ensures
        r@ == claim_source(edges@, id@),
{
    let es = edges.entries();
    let mut k: usize = 0;
    while k < es.len()
        invariant
            k <= es.len(),
            es@ == edges@,
            forall|j: int| 0 <= j < k ==> !claim_edge_into(#[trigger] es@[j], id@),
        decreases es.len() - k,
    {
        if str_eq(es[k].to.as_str(), id) && str_eq(es[k].relation.as_str(), "claim") {
            proof {
                assert(first_claim_edge(edges@, id@, k as int));
                let c = choose|c: int| first_claim_edge(edges@, id@, c);
                if c < k {
                    assert(!claim_edge_into(es@[c], id@));
                } else if c > k {
                    assert(!claim_edge_into(es@[k as int], id@));
                }
            }
            return es[k].from.clone();
        }
        k = k + 1;
    }
    proof {
        assert(!exists|c: int| first_claim_edge(edges@, id@, c));
    }
    String::new()
}

/// The claims listed for the shown semantic nodes, in identity order.
pub fn shown_claim_order(
    nodes: &TraceNodes,
    edges: &TraceEdges,
    distances: &Vec<TraceDistance>,
    semantic_shown: &SortedStrings,
) -> (r: Vec<String>)
    ensures
        r@.map_values(|x: String| x@) == listed_claims(nodes@, edges@, distances@, semantic_shown@.to_set()),
{
    let ns = nodes.entries();
    let mut out: Vec<String> = Vec::new();
    let mut i: usize = 0;
    proof {
        assert(ns@.take(0) =~= Seq::<TraceNodeView>::empty());
        assert(out@.map_values(|x: String| x@) =~= Seq::empty());
    }
    while i < ns.len()
        invariant
            i <= ns.len(),
            ns@ == nodes@,
            out@.map_values(|x: String| x@) == listed_claims(
                ns@.take(i as int),
                edges@,
                distances@,
                semantic_shown@.to_set(),
            ),
        decreases ns.len() - i,
    {
        let n = &ns[i];
        let is_claim = str_eq(n.kind.as_str(), "claim");
        let mut listed = false;
        if is_claim && first_distance(distances, n.id.as_str()).is_some() {
            let source = find_claim_source(edges, n.id.as_str());
            listed = semantic_shown.contains(source.as_str());
        }
        let ghost before = out@;
        proof {
            assert(ns@.take(i + 1).drop_last() =~= ns@.take(i as int));
            assert(ns@.take(i + 1).last() == ns@[i as int]);
            assert(listed == claim_listed(ns@[i as int], edges@, distances@, semantic_shown@.to_set()));
        }
        if listed {
            out.push(n.id.clone());
            proof {
                assert(out@.map_values(|x: String| x@) =~= before.map_values(|x: String| x@).push(n.id@));
            }
        }
        i = i + 1;
    }
    proof {
        assert(ns@.take(ns@.len() as int) =~= ns@);
    }
    out
}

/// How many claims fit beside `shown` semantic nodes under `budget`.
pub open spec fn claim_room(shown: nat, claims: nat, budget: nat) -> nat {
    let free = if shown < budget { (budget - shown) as nat } else { 0nat };
    if free < claims { free } else { claims }
}

/// The nodes shown: the shown semantic nodes and, in exact mode, as many of
/// the listed claims, in order, as the budget leaves room for.
pub fn shown_nodes(semantic: &SortedStrings, claims: &Vec<String>, exact: bool, node_budget: usize) -> (r:
    SortedStrings)
    ensures
        r@.to_set() == if exact {
            semantic@.to_set() + claims@.map_values(|x: String| x@).take(
                claim_room(semantic@.len(), claims@.len(), node_budget as nat) as int,
            ).to_set()
        } else {
            semantic@.to_set()
        },
        crate::trace::ids_sorted(r@),
{
    let ids = semantic.to_vec();
    let mut shown = SortedStrings::new();
    let mut i: usize = 0;
    proof {
        assert(shown@.to_set() =~= Set::empty());
        assert(ids@.map_values(|x: String| x@).take(0).to_set() =~= Set::empty());
    }
    while i < ids.len()
        invariant
            i <= ids.len(),
            ids@.map_values(|x: String| x@) == semantic@,
            crate::trace::ids_sorted(shown@),
            shown@.to_set() == semantic@.take(i as int).to_set(),
        decreases ids.len() - i,
    {
        shown.insert(ids[i].as_str());
        proof {
            assert(ids@.map_values(|x: String| x@)[i as int] == ids@[i as int]@);
            assert(semantic@.take(i + 1) =~= semantic@.take(i as int).push(semantic@[i as int]));
            semantic@.take(i as int).lemma_push_to_set_commute(semantic@[i as int]);
        }
        i = i + 1;
    }
    proof {
        assert(semantic@.take(semantic@.len() as int) =~= semantic@);
    }
    if exact {
        let n = semantic.len();
        let free: usize = if n < node_budget {
            node_budget - n
        } else {
            0
        };
        let room: usize = if free < claims.len() {
            free
        } else {
            claims.len()
        };
        let ghost cv = claims@.map_values(|x: String| x@);
        let ghost base = shown@.to_set();
        let mut j: usize = 0;
        proof {
            assert(cv.take(0).to_set() =~= Set::empty());
            assert(base + cv.take(0).to_set() =~= base);
        }
        while j < room
            invariant
                j <= room,
                room <= claims.len(),
                cv == claims@.map_values(|x: String| x@),
                crate::trace::ids_sorted(shown@),
                shown@.to_set() == base + cv.take(j as int).to_set(),
            decreases room - j,
        {
            shown.insert(claims[j].as_str());
            proof {
                assert(cv[j as int] == claims@[j as int]@);
                assert(cv.take(j + 1) =~= cv.take(j as int).push(cv[j as int]));
                cv.take(j as int).lemma_push_to_set_commute(cv[j as int]);
                assert(shown@.to_set() =~= base + cv.take(j + 1).to_set());
            }
            j = j + 1;
        }
    }
    shown
}

/// How many of `ids` satisfy `p`.
pub open spec fn count_ids(ids: Seq<Seq<char>>, p: spec_fn(Seq<char>) -> bool) -> nat
    decreases ids.len(),
{
    if ids.len() == 0 {
        0
    } else {
        count_ids(ids.drop_last(), p) + if p(ids.last()) {
            1nat
        } else {
            0nat
        }
    }
}

/// Whether `id` is the identity of a node.
pub open spec fn is_node(nodes: Seq<TraceNodeView>, id: Seq<char>) -> bool {
    exists|k: int| 0 <= k < nodes.len() && nodes[k].id@ == id
}

/// The reachable nodes the view leaves out: the semantic candidates beyond
/// the shown non-claim nodes, and in exact mode the listed claims beyond
/// the shown claims.
pub fn hidden_node_count(
    nodes: &TraceNodes,
    shown: &SortedStrings,
    candidate_count: usize,
    claim_count: usize,
    exact: bool,
) -> (r: usize)
    requires
        forall|k: int| 0 <= k < shown@.len() ==> is_node(nodes@, #[trigger] shown@[k]),
        candidate_count + claim_count <= usize::MAX,
    ensures
        r == vstd::math::max(
            0,
            candidate_count - count_ids(shown@, |id: Seq<char>| !is_claim_node(nodes@, id)),
        ) + if exact {
            vstd::math::max(0, claim_count - count_ids(shown@, |id: Seq<char>| is_claim_node(nodes@, id)))
        } else {
            0
        },
{
    let ids = shown.to_vec();
    let ghost sv = shown@;
    let ghost pc = |id: Seq<char>| is_claim_node(nodes@, id);
    let ghost pn = |id: Seq<char>| !is_claim_node(nodes@, id);
    let mut claims_shown: usize = 0;
    let mut others_shown: usize = 0;
    let mut i: usize = 0;
    proof {
        assert(sv.take(0) =~= Seq::<Seq<char>>::empty());
    }
    while i < ids.len()
        invariant
            i <= ids.len(),
            ids@.map_values(|x: String| x@) == sv,
            claims_shown == count_ids(sv.take(i as int), pc),
            others_shown == count_ids(sv.take(i as int), pn),
            claims_shown + others_shown == i,
            pc == (|id: Seq<char>| is_claim_node(nodes@, id)),
            pn == (|id: Seq<char>| !is_claim_node(nodes@, id)),
        decreases ids.len() - i,
    {
        let c = node_is_claim(nodes, ids[i].as_str());
        proof {
            assert(sv[i as int] == ids@[i as int]@);
            assert(sv.take(i + 1).drop_last() =~= sv.take(i as int));
            assert(sv.take(i + 1).last() == sv[i as int]);
        }
        if c {
            claims_shown = claims_shown + 1;
        } else {
            others_shown = others_shown + 1;
        }
        i = i + 1;
    }
    proof {
        assert(sv.take(sv.len() as int) =~= sv);
    }
    let semantic_hidden: usize = if candidate_count > others_shown {
        candidate_count - others_shown
    } else {
        0
    };
    let claim_hidden: usize = if exact && claim_count > claims_shown {
        claim_count - claims_shown
    } else {
        0
    };
    semantic_hidden + claim_hidden
}

// ---------------------------------------------------------------------------
// The whole selection

/// Candidates are no claims and listed claims are claims, so together they
/// number at most the nodes; every listed claim is a node.
proof fn lemma_candidates_and_claims(
    ns: Seq<TraceNodeView>,
    es: Seq<TraceEdgeView>,
    d: Seq<TraceDistance>,
    shown: Set<Seq<char>>,
)
    ensures
        count_nodes(ns, |n: TraceNodeView| semantic_candidate(n, d)) + listed_claims(ns, es, d, shown).len()
            <= ns.len(),
        forall|j: int|
            0 <= j < listed_claims(ns, es, d, shown).len() ==> is_node(ns, #[trigger] listed_claims(ns, es, d, shown)[j]),
    decreases ns.len(),
{
    if ns.len() > 0 {
        let rest = ns.drop_last();
        lemma_candidates_and_claims(rest, es, d, shown);
        let lc = listed_claims(ns, es, d, shown);
        let lr = listed_claims(rest, es, d, shown);
        assert forall|j: int| 0 <= j < lc.len() implies is_node(ns, #[trigger] lc[j]) by {
            if j < lr.len() {
                assert(lc[j] == lr[j]);
                assert(is_node(rest, lr[j]));
                let k = choose|k: int| 0 <= k < rest.len() && rest[k].id@ == lr[j];
                assert(ns[k] == rest[k]);
            } else {
                assert(lc[j] == ns.last().id@);
                assert(ns[ns.len() - 1] == ns.last());
            }
        }
    }
}

/// The nodes and edges the bounded trace view shows, and what it leaves
/// out.
pub struct TraceSelection {
    /// The semantic candidates in the order they are taken.
    pub ordered: Vec<NodeKey>,
    /// The semantic nodes shown.
    pub semantic_shown: SortedStrings,
    /// The claims hanging at shown semantic nodes, in identity order.
    pub claims: Vec<String>,
    /// Every node shown.
    pub shown: SortedStrings,
    /// The shown nodes in display order; a node's place is its stable
    /// order.
    pub display: Vec<NodeKey>,
    /// The edges shown, in identity order.
    pub edges: Vec<TraceEdgeView>,
    pub hidden_node_count: usize,
    pub hidden_edge_count: usize,
}

/// The bounded selection of the trace view over the whole graph: the
/// semantic candidates ordered, the first `node_budget` of them shown with
/// the root always among them, in exact mode the claims at shown nodes
/// while the budget lasts, the edges among shown nodes under `edge_budget`,
/// and the counts of what is left out.
pub fn select_trace(
    nodes: &TraceNodes,
    edges: &TraceEdges,
    distances: &Vec<TraceDistance>,
    root: &str,
    evidence: &SortedStrings,
    exact: bool,
    node_budget: usize,
    edge_budget: usize,
) -> (r: TraceSelection)
    requires
        is_node(nodes@, root@),
    ensures
        trace_selected(
            nodes@,
            edges@,
            distances@,
            root@,
            evidence@.to_set(),
            exact,
            node_budget as nat,
            edge_budget as nat,
            r,
        ),
        semantic_order(nodes@, distances@, root@, evidence@.to_set(), keys_view(r.ordered@)),
        r.ordered@.len() == count_nodes(nodes@, |n: TraceNodeView| semantic_candidate(n, distances@)),
        r.semantic_shown@.to_set() == semantic_shown_set(keys_view(r.ordered@), root@, node_budget as nat),
        r.claims@.map_values(|x: String| x@) == listed_claims(
            nodes@,
            edges@,
            distances@,
            r.semantic_shown@.to_set(),
        ),
        r.shown@.to_set() == if exact {
            r.semantic_shown@.to_set() + r.claims@.map_values(|x: String| x@).take(
                claim_room(r.semantic_shown@.len(), r.claims@.len(), node_budget as nat) as int,
            ).to_set()
        } else {
            r.semantic_shown@.to_set()
        },
        r.shown@.to_set().contains(root@),
        node_budget >= 1 ==> r.shown@.to_set().len() <= node_budget,
        keys_sorted(keys_view(r.display@)),
        keys_view(r.display@).to_set() == shown_keys(nodes@, r.shown@.to_set(), nodes@.len() as int),
        r.hidden_node_count == vstd::math::max(
            0,
            r.ordered@.len() - count_ids(r.shown@, |id: Seq<char>| !is_claim_node(nodes@, id)),
        ) + if exact {
            vstd::math::max(
                0,
                r.claims@.len() - count_ids(r.shown@, |id: Seq<char>| is_claim_node(nodes@, id)),
            )
        } else {
            0
        },
        ({
            let sem = |e: TraceEdgeView|
                semantic_edge(nodes@, distances@, r.semantic_shown@.to_set(), e);
            let clm = |e: TraceEdgeView| claim_edge(nodes@, distances@, r.shown@.to_set(), e);
            let total = count_of(edges@, sem);
            let first = if total < edge_budget {
                total
            } else {
                edge_budget as nat
            };
            let rest = (edge_budget - first) as nat;
            &&& r.edges@ == kept_edges(
                edges@,
                edges@.len() as int,
                sem,
                clm,
                edge_budget as nat,
                rest,
                exact,
            )
            &&& r.edges@.len() <= edge_budget
            &&& r.hidden_edge_count as int == vstd::math::max(
                0,
                count_of(edges@, |e: TraceEdgeView| counted_edge(nodes@, distances@, exact, e))
                    - r.edges@.len(),
            )
        }),
{
    let ns = nodes.entries();
    let ordered = semantic_ordered(ns, distances, root, evidence);
    let semantic_shown = shown_semantic(&ordered, root, node_budget);
    let claims = shown_claim_order(nodes, edges, distances, &semantic_shown);
    let shown = shown_nodes(&semantic_shown, &claims, exact, node_budget);
    proof {
        let ghost sset = semantic_shown@.to_set();
        lemma_candidates_and_claims(nodes@, edges@, distances@, sset);
        let cv = claims@.map_values(|x: String| x@);
        assert(cv.len() == claims@.len());
        assert(ns@.len() == ns.len());
        assert(ordered@.len() + claims@.len() <= usize::MAX);
        lemma_sorted_no_duplicates(semantic_shown@);
        assert(sset.contains(root@));
        if node_budget >= 1 {
            lemma_semantic_shown_within_budget(keys_view(ordered@), root@, node_budget as nat);
            if exact {
                let room = claim_room(semantic_shown@.len(), claims@.len(), node_budget as nat) as int;
                cv.take(room).lemma_cardinality_of_set();
                vstd::set_lib::lemma_len_union(sset, cv.take(room).to_set());
            }
        }
        let kv = keys_view(ordered@);
        // Every shown identity is a node.
        assert forall|x: Seq<char>| #[trigger] sset.contains(x) implies is_node(nodes@, x) by {
            if x != root@ {
                let t = leading_ids(kv, node_budget as nat);
                assert(t.contains(x));
                let m = if (node_budget as nat) < kv.len() { node_budget as int } else { kv.len() as int };
                let tk = kv.take(m).map_values(|k: (nat, nat, nat, Seq<char>, Seq<char>)| k.4);
                let j = choose|j: int| 0 <= j < tk.len() && tk[j] == x;
                assert(tk[j] == kv[j].4);
                assert(key_of_candidate(nodes@, distances@, root@, evidence@.to_set(), nodes@.len() as int, kv[j]));
                let i = choose|i: int|
                    0 <= i < nodes@.len() && #[trigger] semantic_candidate(nodes@[i], distances@)
                        && node_key_of(nodes@[i], distances@, root@, evidence@.to_set(), kv[j]);
            }
        }
        assert forall|k: int| 0 <= k < shown@.len() implies is_node(nodes@, #[trigger] shown@[k]) by {
            assert(shown@.to_set().contains(shown@[k]));
            if !sset.contains(shown@[k]) {
                let room = claim_room(semantic_shown@.len(), claims@.len(), node_budget as nat) as int;
                let j = choose|j: int| 0 <= j < cv.take(room).len() && cv.take(room)[j] == shown@[k];
                assert(cv[j] == shown@[k]);
            }
        }
    }
    let hidden_node_count = hidden_node_count(nodes, &shown, ordered.len(), claims.len(), exact);
    let (shown_edges, hidden_edge_count) = select_trace_edges(
        edges,
        nodes,
        distances,
        &semantic_shown,
        &shown,
        exact,
        edge_budget,
    );
    let display = display_order(nodes, &shown);
    semantic_shown.len();
    shown.len();
    TraceSelection {
        ordered,
        semantic_shown,
        claims,
        shown,
        display,
        edges: shown_edges,
        hidden_node_count,
        hidden_edge_count,
    }
}

// ---------------------------------------------------------------------------
// What the budgets guarantee

proof fn lemma_least_exists(s: Seq<Seq<char>>)
    requires
        s.len() > 0,
    ensures
        exists|e: Seq<char>| least_of(s.to_set(), e),
    decreases s.len(),
{
    if s.len() == 1 {
        assert(s.to_set() =~= set![s[0]]);
        assert(least_of(s.to_set(), s[0]));
    } else {
        let rest = s.drop_last();
        lemma_least_exists(rest);
        let m = choose|e: Seq<char>| least_of(rest.to_set(), e);
        let x = s.last();
        assert(s =~= rest.push(x));
        rest.lemma_push_to_set_commute(x);
        crate::text::lemma_lt_total(m, x);
        if seq_lt(x, m) {
            assert forall|f: Seq<char>| #[trigger] s.to_set().contains(f) && f != x implies seq_lt(x, f) by {
                if f != m {
                    crate::text::lemma_lt_transitive(x, m, f);
                }
            }
            assert(least_of(s.to_set(), x));
        } else {
            assert(least_of(s.to_set(), m));
        }
    }
}

/// The root is always among the shown semantic nodes, and with a budget of
/// at least one they never number more than the budget.
pub proof fn lemma_semantic_shown_within_budget(
    ordered: Seq<(nat, nat, nat, Seq<char>, Seq<char>)>,
    root: Seq<char>,
    budget: nat,
)
    requires
        budget >= 1,
    ensures
        semantic_shown_set(ordered, root, budget).contains(root),
        semantic_shown_set(ordered, root, budget).finite(),
        semantic_shown_set(ordered, root, budget).len() <= budget,
{
    let m = if budget < ordered.len() { budget as int } else { ordered.len() as int };
    let ids = ordered.take(m).map_values(|k: (nat, nat, nat, Seq<char>, Seq<char>)| k.4);
    let t = leading_ids(ordered, budget);
    assert(t == ids.to_set());
    ids.lemma_cardinality_of_set();
    assert(t.len() <= budget);
    if !t.contains(root) && t.len() >= budget && t.len() > 0 {
        lemma_least_exists(ids);
        let e = choose|e: Seq<char>| least_of(t, e);
        assert(t.contains(e));
        assert(t.remove(e).len() == t.len() - 1);
    }
}

proof fn lemma_kept_len(
    es: Seq<TraceEdgeView>,
    n: int,
    sem: spec_fn(TraceEdgeView) -> bool,
    clm: spec_fn(TraceEdgeView) -> bool,
    budget: nat,
    rest: nat,
    exact: bool,
)
    requires
        0 <= n <= es.len(),
        forall|e: TraceEdgeView| !(#[trigger] sem(e) && clm(e)),
    ensures
        kept_edges(es, n, sem, clm, budget, rest, exact).len() == vstd::math::min(
            count_of(es.take(n), sem) as int,
            budget as int,
        ) + if exact {
            vstd::math::min(count_of(es.take(n), clm) as int, rest as int)
        } else {
            0
        },
    decreases n,
{
    if n == 0 {
        assert(es.take(0) =~= Seq::<TraceEdgeView>::empty());
    } else {
        lemma_kept_len(es, n - 1, sem, clm, budget, rest, exact);
        lemma_count_step(es, n - 1, sem);
        lemma_count_step(es, n - 1, clm);
        assert(!(sem(es[n - 1]) && clm(es[n - 1])));
    }
}

// ---------------------------------------------------------------------------
// Display order

/// The display key of a node: by lane, then kind, then identity.
pub open spec fn display_key(n: TraceNodeView) -> (nat, nat, nat, Seq<char>, Seq<char>) {
    (0, 0, crate::trace::spec_lane_rank(n.lane@), n.kind@, n.id@)
}

/// The display keys of the nodes among the first `upto` whose identity is
/// shown.
pub open spec fn shown_keys(nodes: Seq<TraceNodeView>, shown: Set<Seq<char>>, upto: int) -> Set<(nat, nat, nat, Seq<char>, Seq<char>)> {
    Set::new(
        |k: (nat, nat, nat, Seq<char>, Seq<char>)|
            exists|i: int| 0 <= i < upto && shown.contains(nodes[i].id@) && #[trigger] display_key(nodes[i]) == k,
    )
}

/// Whether `k` is the display key of one of the first `upto` nodes.
pub open spec fn key_from_nodes(nodes: Seq<TraceNodeView>, upto: int, k: (nat, nat, nat, Seq<char>, Seq<char>)) -> bool {
    exists|i: int| 0 <= i < upto && #[trigger] display_key(nodes[i]) == k
}

/// The shown nodes in the order the view lists them: by lane, kind and
/// identity; a node's place in it is its stable order.
pub fn display_order(nodes: &TraceNodes, shown: &SortedStrings) -> (r: Vec<NodeKey>)
    ensures
        keys_sorted(keys_view(r@)),
        keys_view(r@).to_set() == shown_keys(nodes@, shown@.to_set(), nodes@.len() as int),
{
    let ns = nodes.entries();
    let mut out: Vec<NodeKey> = Vec::new();
    let mut i: usize = 0;
    proof {
        assert(keys_view(out@).to_set() =~= shown_keys(ns@, shown@.to_set(), 0));
    }
    while i < ns.len()
        invariant
            i <= ns.len(),
            ns@ == nodes@,
            crate::trace::ids_sorted(crate::trace::node_ids(ns@)),
            keys_sorted(keys_view(out@)),
            keys_view(out@).to_set() == shown_keys(ns@, shown@.to_set(), i as int),
            forall|q: int| 0 <= q < out@.len() ==> key_from_nodes(ns@, i as int, #[trigger] keys_view(out@)[q]),
        decreases ns.len() - i,
    {
        let n = &ns[i];
        let ghost before = out@;
        if shown.contains(n.id.as_str()) {
            let key = NodeKey {
                priority: 0,
                distance: 0,
                lane: crate::trace::trace_lane_rank(n.lane.as_str()),
                kind: chars_of(n.kind.as_str()),
                id: chars_of(n.id.as_str()),
            };
            proof {
                assert(key_view(key) == display_key(ns@[i as int]));
                assert forall|q: int| 0 <= q < out@.len() implies out@[q].id@ != key.id@ by {
                    assert(keys_view(out@)[q] == key_view(out@[q]));
                    assert(key_from_nodes(ns@, i as int, keys_view(out@)[q]));
                    let j = choose|j: int| 0 <= j < i && #[trigger] display_key(ns@[j]) == keys_view(out@)[q];
                    let ids = crate::trace::node_ids(ns@);
                    assert(ids[j] == ns@[j].id@ && ids[i as int] == ns@[i as int].id@);
                    crate::text::lemma_lt_irreflexive(ns@[j].id@);
                }
            }
            insert_key(&mut out, key);
            proof {
                let p = choose|p: int| 0 <= p <= before.len() && out@ == before.insert(p, key);
                let bv = keys_view(before);
                let nv = keys_view(out@);
                assert(nv =~= bv.insert(p, key_view(key)));
                assert forall|x| nv.to_set().contains(x) == (bv.to_set().contains(x) || x == key_view(key)) by {
                    if nv.contains(x) {
                        let q = choose|q: int| 0 <= q < nv.len() && nv[q] == x;
                        if q < p {
                            assert(bv[q] == x);
                        } else if q > p {
                            assert(bv[q - 1] == x);
                        }
                    }
                    if bv.contains(x) {
                        let q = choose|q: int| 0 <= q < bv.len() && bv[q] == x;
                        if q < p {
                            assert(nv[q] == x);
                        } else {
                            assert(nv[q + 1] == x);
                        }
                    }
                    if x == key_view(key) {
                        assert(nv[p] == x);
                    }
                }
                assert forall|x| shown_keys(ns@, shown@.to_set(), i + 1).contains(x) == (shown_keys(
                    ns@,
                    shown@.to_set(),
                    i as int,
                ).contains(x) || x == key_view(key)) by {
                    if shown_keys(ns@, shown@.to_set(), i + 1).contains(x) {
                        let j = choose|j: int|
                            0 <= j < i + 1 && shown@.to_set().contains(ns@[j].id@) && #[trigger] display_key(ns@[j]) == x;
                        if j < i {
                            assert(shown_keys(ns@, shown@.to_set(), i as int).contains(x));
                        }
                    }
                    if x == key_view(key) {
                        assert(shown@.to_set().contains(ns@[i as int].id@));
                        assert(display_key(ns@[i as int]) == x);
                    }
                }
                assert(nv.to_set() =~= shown_keys(ns@, shown@.to_set(), i + 1));
                assert forall|q: int| 0 <= q < nv.len() implies key_from_nodes(ns@, i + 1, #[trigger] nv[q]) by {
                    if q < p {
                        assert(nv[q] == bv[q]);
                        assert(key_from_nodes(ns@, i as int, keys_view(before)[q]));
                        let j = choose|j: int| 0 <= j < i && #[trigger] display_key(ns@[j]) == bv[q];
                        assert(0 <= j < i + 1 && display_key(ns@[j]) == nv[q]);
                    } else if q > p {
                        assert(nv[q] == bv[q - 1]);
                        assert(key_from_nodes(ns@, i as int, keys_view(before)[q - 1]));
                        let j = choose|j: int| 0 <= j < i && #[trigger] display_key(ns@[j]) == bv[q - 1];
                        assert(0 <= j < i + 1 && display_key(ns@[j]) == nv[q]);
                    } else {
                        assert(display_key(ns@[i as int]) == nv[q]);
                    }
                }
            }
        } else {
            proof {
                assert forall|x| shown_keys(ns@, shown@.to_set(), i + 1).contains(x) == shown_keys(
                    ns@,
                    shown@.to_set(),
                    i as int,
                ).contains(x) by {
                    if shown_keys(ns@, shown@.to_set(), i + 1).contains(x) {
                        let j = choose|j: int|
                            0 <= j < i + 1 && shown@.to_set().contains(ns@[j].id@) && #[trigger] display_key(ns@[j]) == x;
                        if j < i {
                            assert(shown_keys(ns@, shown@.to_set(), i as int).contains(x));
                        }
                    }
                }
                assert(keys_view(out@).to_set() =~= shown_keys(ns@, shown@.to_set(), i + 1));
                assert forall|q: int| 0 <= q < out@.len() implies key_from_nodes(ns@, i + 1, #[trigger] keys_view(out@)[q]) by {
                    assert(key_from_nodes(ns@, i as int, keys_view(out@)[q]));
                    let j = choose|j: int| 0 <= j < i && #[trigger] display_key(ns@[j]) == keys_view(out@)[q];
                    assert(0 <= j < i + 1 && display_key(ns@[j]) == keys_view(out@)[q]);
                }
            }
        }
        i = i + 1;
    }
    out
}

// ---------------------------------------------------------------------------
// The readable and the exact view

proof fn lemma_key_irreflexive(a: (nat, nat, nat, Seq<char>, Seq<char>))
    ensures
        !key_lt(a, a),
{
    crate::text::lemma_lt_irreflexive(a.3);
    crate::text::lemma_lt_irreflexive(a.4);
}

/// Two strictly sorted key sequences with the same members are equal.
pub(crate) proof fn lemma_sorted_same_members(
    a: Seq<(nat, nat, nat, Seq<char>, Seq<char>)>,
    b: Seq<(nat, nat, nat, Seq<char>, Seq<char>)>,
)
    requires
        keys_sorted(a),
        keys_sorted(b),
        forall|x: (nat, nat, nat, Seq<char>, Seq<char>)| a.contains(x) <==> b.contains(x),
    ensures
        a == b,
    decreases a.len(),
{
    if a.len() == 0 {
        if b.len() > 0 {
            assert(b.contains(b[0]));
        }
        assert(a =~= b);
    } else {
        assert(a.contains(a[0]));
        let j = choose|j: int| 0 <= j < b.len() && b[j] == a[0];
        assert(b.contains(b[0]));
        let i = choose|i: int| 0 <= i < a.len() && a[i] == b[0];
        if j > 0 {
            assert(key_lt(b[0], b[j]));
            if i > 0 {
                assert(key_lt(a[0], a[i]));
                lemma_key_transitive(a[0], b[0], a[0]);
            }
            lemma_key_irreflexive(a[0]);
        }
        assert(a[0] == b[0]);
        let a1 = a.drop_first();
        let b1 = b.drop_first();
        assert forall|x: (nat, nat, nat, Seq<char>, Seq<char>)| a1.contains(x) <==> b1.contains(x) by {
            if a1.contains(x) {
                let p = choose|p: int| 0 <= p < a1.len() && a1[p] == x;
                assert(a[p + 1] == x);
                assert(key_lt(a[0], a[p + 1]));
                lemma_key_irreflexive(x);
                assert(b.contains(x));
                let q = choose|q: int| 0 <= q < b.len() && b[q] == x;
                assert(q != 0);
                assert(b1[q - 1] == x);
            }
            if b1.contains(x) {
                let p = choose|p: int| 0 <= p < b1.len() && b1[p] == x;
                assert(b[p + 1] == x);
                assert(key_lt(b[0], b[p + 1]));
                lemma_key_irreflexive(x);
                assert(a.contains(x));
                let q = choose|q: int| 0 <= q < a.len() && a[q] == x;
                assert(q != 0);
                assert(a1[q - 1] == x);
            }
        }
        assert(keys_sorted(a1)) by {
            assert forall|p: int, q: int| 0 <= p < q < a1.len() implies key_lt(a1[p], a1[q]) by {
                assert(a1[p] == a[p + 1] && a1[q] == a[q + 1]);
            }
        }
        assert(keys_sorted(b1)) by {
            assert forall|p: int, q: int| 0 <= p < q < b1.len() implies key_lt(b1[p], b1[q]) by {
                assert(b1[p] == b[p + 1] && b1[q] == b[q + 1]);
            }
        }
        lemma_sorted_same_members(a1, b1);
        assert(a =~= seq![a[0]] + a1);
        assert(b =~= seq![b[0]] + b1);
    }
}

proof fn lemma_node_key_unique(
    n: TraceNodeView,
    d: Seq<TraceDistance>,
    root: Seq<char>,
    evidence: Set<Seq<char>>,
    k1: (nat, nat, nat, Seq<char>, Seq<char>),
    k2: (nat, nat, nat, Seq<char>, Seq<char>),
)
    requires
        node_key_of(n, d, root, evidence, k1),
        node_key_of(n, d, root, evidence, k2),
    ensures
        k1 == k2,
{
    let j1 = choose|j: int| recorded_distance(d, n.id@, j) && k1.1 == d[j].distance;
    let j2 = choose|j: int| recorded_distance(d, n.id@, j) && k2.1 == d[j].distance;
    if j1 < j2 {
        assert(d[j1].node@ == n.id@);
    } else if j2 < j1 {
        assert(d[j2].node@ == n.id@);
    }
}

/// The semantic order of a node set is one sequence.
pub(crate) proof fn lemma_semantic_order_unique(
    nodes: Seq<TraceNodeView>,
    d: Seq<TraceDistance>,
    root: Seq<char>,
    evidence: Set<Seq<char>>,
    o1: Seq<(nat, nat, nat, Seq<char>, Seq<char>)>,
    o2: Seq<(nat, nat, nat, Seq<char>, Seq<char>)>,
)
    requires
        crate::trace::ids_sorted(crate::trace::node_ids(nodes)),
        semantic_order(nodes, d, root, evidence, o1),
        semantic_order(nodes, d, root, evidence, o2),
    ensures
        o1 == o2,
{
    lemma_sorted_no_duplicates(crate::trace::node_ids(nodes));
    assert forall|x: (nat, nat, nat, Seq<char>, Seq<char>)| o1.contains(x) implies o2.contains(x) by {
        lemma_order_member(nodes, d, root, evidence, o1, o2, x);
    }
    assert forall|x: (nat, nat, nat, Seq<char>, Seq<char>)| o2.contains(x) implies o1.contains(x) by {
        lemma_order_member(nodes, d, root, evidence, o2, o1, x);
    }
    lemma_sorted_same_members(o1, o2);
}

proof fn lemma_order_member(
    nodes: Seq<TraceNodeView>,
    d: Seq<TraceDistance>,
    root: Seq<char>,
    evidence: Set<Seq<char>>,
    o1: Seq<(nat, nat, nat, Seq<char>, Seq<char>)>,
    o2: Seq<(nat, nat, nat, Seq<char>, Seq<char>)>,
    x: (nat, nat, nat, Seq<char>, Seq<char>),
)
    requires
        crate::trace::node_ids(nodes).no_duplicates(),
        semantic_order(nodes, d, root, evidence, o1),
        semantic_order(nodes, d, root, evidence, o2),
        o1.contains(x),
    ensures
        o2.contains(x),
{
    let p = choose|p: int| 0 <= p < o1.len() && o1[p] == x;
    assert(key_of_candidate(nodes, d, root, evidence, nodes.len() as int, o1[p]));
    let i = choose|i: int|
        0 <= i < nodes.len() && #[trigger] semantic_candidate(nodes[i], d) && node_key_of(nodes[i], d, root, evidence, x);
    let k = choose|k: int| 0 <= k < o2.len() && #[trigger] o2[k].4 == nodes[i].id@;
    assert(key_of_candidate(nodes, d, root, evidence, nodes.len() as int, o2[k]));
    let i2 = choose|i2: int|
        0 <= i2 < nodes.len() && #[trigger] semantic_candidate(nodes[i2], d) && node_key_of(
            nodes[i2],
            d,
            root,
            evidence,
            o2[k],
        );
    assert(crate::trace::node_ids(nodes)[i] == crate::trace::node_ids(nodes)[i2]);
    lemma_node_key_unique(nodes[i], d, root, evidence, x, o2[k]);
}

/// Claims listed for a shown set are claim nodes.
proof fn lemma_listed_are_claims(
    ns: Seq<TraceNodeView>,
    es: Seq<TraceEdgeView>,
    d: Seq<TraceDistance>,
    shown: Set<Seq<char>>,
    x: Seq<char>,
)
    requires
        listed_claims(ns, es, d, shown).contains(x),
    ensures
        is_claim_node(ns, x),
    decreases ns.len(),
{
    let p = ns.drop_last();
    let l = listed_claims(p, es, d, shown);
    if l.contains(x) {
        lemma_listed_are_claims(p, es, d, shown, x);
        let k = choose|k: int| 0 <= k < p.len() && p[k].id@ == x && p[k].kind@ == "claim"@;
        assert(ns[k] == p[k]);
    } else {
        let q = choose|q: int| 0 <= q < listed_claims(ns, es, d, shown).len() && listed_claims(ns, es, d, shown)[q] == x;
        assert(q >= l.len());
        assert(ns[ns.len() - 1] == ns.last());
    }
}

/// In the semantic order no identity is a claim node.
proof fn lemma_semantic_not_claim(
    nodes: Seq<TraceNodeView>,
    d: Seq<TraceDistance>,
    root: Seq<char>,
    evidence: Set<Seq<char>>,
    o: Seq<(nat, nat, nat, Seq<char>, Seq<char>)>,
    budget: nat,
    x: Seq<char>,
)
    requires
        crate::trace::node_ids(nodes).no_duplicates(),
        semantic_order(nodes, d, root, evidence, o),
        leading_ids(o, budget).contains(x),
    ensures
        !is_claim_node(nodes, x),
{
    let m = if budget < o.len() { budget as int } else { o.len() as int };
    let ids = o.take(m).map_values(|k: (nat, nat, nat, Seq<char>, Seq<char>)| k.4);
    let q = choose|q: int| 0 <= q < ids.len() && ids[q] == x;
    assert(o[q].4 == x);
    assert(key_of_candidate(nodes, d, root, evidence, nodes.len() as int, o[q]));
    let i = choose|i: int|
        0 <= i < nodes.len() && #[trigger] semantic_candidate(nodes[i], d) && node_key_of(nodes[i], d, root, evidence, o[q]);
    if is_claim_node(nodes, x) {
        let k = choose|k: int| 0 <= k < nodes.len() && nodes[k].id@ == x && nodes[k].kind@ == "claim"@;
        assert(crate::trace::node_ids(nodes)[k] == crate::trace::node_ids(nodes)[i]);
    }
}

/// A selection as `select_trace` states it.
/// The edges a selection shows: semantic edges between shown semantic nodes
/// first, up to the budget, then (in exact mode) edges at shown claims in
/// what the budget leaves.
pub open spec fn shown_edges(
    nodes: Seq<TraceNodeView>,
    edges: Seq<TraceEdgeView>,
    distances: Seq<TraceDistance>,
    r: TraceSelection,
    exact: bool,
    edge_budget: nat,
) -> Seq<TraceEdgeView> {
    let sem = |e: TraceEdgeView| semantic_edge(nodes, distances, r.semantic_shown@.to_set(), e);
    let clm = |e: TraceEdgeView| claim_edge(nodes, distances, r.shown@.to_set(), e);
    let total = count_of(edges, sem);
    let first = if total < edge_budget {
        total
    } else {
        edge_budget
    };
    kept_edges(edges, edges.len() as int, sem, clm, edge_budget, (edge_budget - first) as nat, exact)
}

pub open spec fn trace_selected(
    nodes: Seq<TraceNodeView>,
    edges: Seq<TraceEdgeView>,
    distances: Seq<TraceDistance>,
    root: Seq<char>,
    evidence: Set<Seq<char>>,
    exact: bool,
    node_budget: nat,
    edge_budget: nat,
    r: TraceSelection,
) -> bool {
    &&& semantic_order(nodes, distances, root, evidence, keys_view(r.ordered@))
    &&& r.edges@ == shown_edges(nodes, edges, distances, r, exact, edge_budget)
    &&& crate::trace::ids_sorted(r.semantic_shown@) && crate::trace::ids_sorted(r.shown@)
    &&& r.hidden_node_count == vstd::math::max(
        0,
        r.ordered@.len() - count_ids(r.shown@, |id: Seq<char>| !is_claim_node(nodes, id)),
    ) + if exact {
        vstd::math::max(0, r.claims@.len() - count_ids(r.shown@, |id: Seq<char>| is_claim_node(nodes, id)))
    } else {
        0
    }
    &&& r.hidden_edge_count as int == vstd::math::max(
        0,
        count_of(edges, |e: TraceEdgeView| counted_edge(nodes, distances, exact, e)) - r.edges@.len(),
    )
    &&& r.semantic_shown@.to_set() == semantic_shown_set(keys_view(r.ordered@), root, node_budget)
    &&& r.claims@.map_values(|x: String| x@) == listed_claims(nodes, edges, distances, r.semantic_shown@.to_set())
    &&& r.shown@.to_set() == if exact {
        r.semantic_shown@.to_set() + r.claims@.map_values(|x: String| x@).take(
            claim_room(r.semantic_shown@.len(), r.claims@.len(), node_budget) as int,
        ).to_set()
    } else {
        r.semantic_shown@.to_set()
    }
}

/// The edges kept away from claims are the same whether or not edges at
/// claims are kept too.
proof fn lemma_kept_edges_away_from_claims(
    nodes: Seq<TraceNodeView>,
    es: Seq<TraceEdgeView>,
    n: int,
    sem: spec_fn(TraceEdgeView) -> bool,
    clm_readable: spec_fn(TraceEdgeView) -> bool,
    clm_exact: spec_fn(TraceEdgeView) -> bool,
    budget: nat,
    rest: nat,
)
    requires
        0 <= n <= es.len(),
        forall|e: TraceEdgeView| #[trigger] sem(e) ==> !touches_claim(nodes, e),
        forall|e: TraceEdgeView| #[trigger] clm_exact(e) ==> touches_claim(nodes, e),
    ensures
        kept_edges(es, n, sem, clm_readable, budget, rest, false) == kept_edges(
            es,
            n,
            sem,
            clm_exact,
            budget,
            rest,
            true,
        ).filter(|e: TraceEdgeView| !touches_claim(nodes, e)),
    decreases n,
{
    let away = |e: TraceEdgeView| !touches_claim(nodes, e);
    if n <= 0 {
        let k = kept_edges(es, n, sem, clm_exact, budget, rest, true);
        k.lemma_filter_len(away);
        assert(k.filter(away) =~= Seq::<TraceEdgeView>::empty());
    } else {
        lemma_kept_edges_away_from_claims(nodes, es, n - 1, sem, clm_readable, clm_exact, budget, rest);
        let before = kept_edges(es, n - 1, sem, clm_exact, budget, rest, true);
        let e = es[n - 1];
        if edge_kept(es, n - 1, sem, clm_exact, budget, rest, true) {
            assert(kept_edges(es, n, sem, clm_exact, budget, rest, true) =~= before.push(e));
            before.lemma_filter_push(e, away);
        } else {
            assert(kept_edges(es, n, sem, clm_exact, budget, rest, true) =~= before);
        }
        let before_r = kept_edges(es, n - 1, sem, clm_readable, budget, rest, false);
        if edge_kept(es, n - 1, sem, clm_readable, budget, rest, false) {
            assert(kept_edges(es, n, sem, clm_readable, budget, rest, false) =~= before_r.push(e));
        } else {
            assert(kept_edges(es, n, sem, clm_readable, budget, rest, false) =~= before_r);
        }
    }
}

/// The readable and the exact view of one trace show the same nodes apart
/// from claims: the exact view only adds claim nodes (the root, shown in
/// both, is taken not to be a claim); and the readable view's edges are the
/// exact view's edges that touch no claim, in the same order.
pub proof fn lemma_readable_exact_agree(
    nodes: Seq<TraceNodeView>,
    edges: Seq<TraceEdgeView>,
    distances: Seq<TraceDistance>,
    root: Seq<char>,
    evidence: Set<Seq<char>>,
    node_budget: nat,
    edge_budget: nat,
    readable: TraceSelection,
    exact: TraceSelection,
)
    requires
        crate::trace::ids_sorted(crate::trace::node_ids(nodes)),
        !is_claim_node(nodes, root),
        trace_selected(nodes, edges, distances, root, evidence, false, node_budget, edge_budget, readable),
        trace_selected(nodes, edges, distances, root, evidence, true, node_budget, edge_budget, exact),
    ensures
        forall|x: Seq<char>|
            #[trigger] readable.shown@.to_set().contains(x) <==> (exact.shown@.to_set().contains(x) && !is_claim_node(
                nodes,
                x,
            )),
        readable.edges@ == exact.edges@.filter(|e: TraceEdgeView| !touches_claim(nodes, e)),
{
    lemma_sorted_no_duplicates(crate::trace::node_ids(nodes));
    let o = keys_view(readable.ordered@);
    lemma_semantic_order_unique(nodes, distances, root, evidence, o, keys_view(exact.ordered@));
    let sem = semantic_shown_set(o, root, node_budget);
    assert(readable.semantic_shown@.to_set() == exact.semantic_shown@.to_set());
    let sem_r = |e: TraceEdgeView| semantic_edge(nodes, distances, readable.semantic_shown@.to_set(), e);
    let sem_e = |e: TraceEdgeView| semantic_edge(nodes, distances, exact.semantic_shown@.to_set(), e);
    assert(sem_r =~= sem_e);
    let total = count_of(edges, sem_r);
    let first = if total < edge_budget {
        total
    } else {
        edge_budget
    };
    lemma_kept_edges_away_from_claims(
        nodes,
        edges,
        edges.len() as int,
        sem_r,
        |e: TraceEdgeView| claim_edge(nodes, distances, readable.shown@.to_set(), e),
        |e: TraceEdgeView| claim_edge(nodes, distances, exact.shown@.to_set(), e),
        edge_budget,
        (edge_budget - first) as nat,
    );
    let cl = exact.claims@.map_values(|y: String| y@);
    assert forall|x: Seq<char>|
        #[trigger] readable.shown@.to_set().contains(x) <==> (exact.shown@.to_set().contains(x) && !is_claim_node(
            nodes,
            x,
        )) by {
        let t = leading_ids(o, node_budget);
        if sem.contains(x) && x != root {
            if t.contains(root) {
                lemma_semantic_not_claim(nodes, distances, root, evidence, o, node_budget, x);
            } else if t.len() >= node_budget && t.len() > 0 {
                assert(t.contains(x));
                lemma_semantic_not_claim(nodes, distances, root, evidence, o, node_budget, x);
            } else {
                assert(t.contains(x));
                lemma_semantic_not_claim(nodes, distances, root, evidence, o, node_budget, x);
            }
        }
        let room = claim_room(exact.semantic_shown@.len(), exact.claims@.len(), node_budget) as int;
        if cl.take(room).to_set().contains(x) {
            let q = choose|q: int| 0 <= q < cl.take(room).len() && cl.take(room)[q] == x;
            assert(cl[q] == x);
            assert(listed_claims(nodes, edges, distances, exact.semantic_shown@.to_set()).contains(x));
            lemma_listed_are_claims(nodes, edges, distances, exact.semantic_shown@.to_set(), x);
        }
    }
}

// ---------------------------------------------------------------------------
// Selections over equal neighbourhoods

/// Two neighbourhoods with the same view reach the same nodes at the same
/// distances.
proof fn lemma_same_distances(d1: Seq<TraceDistance>, d2: Seq<TraceDistance>)
    requires
        crate::trace::dist_view(d1) == crate::trace::dist_view(d2),
    ensures
        d1.len() == d2.len(),
        forall|k: int| 0 <= k < d1.len() ==> d1[k].node@ == d2[k].node@ && d1[k].distance == d2[k].distance,
        forall|n: Seq<char>| reached(d1, n) == reached(d2, n),
        forall|n: TraceNodeView| semantic_candidate(n, d1) == semantic_candidate(n, d2),
        forall|e: TraceEdgeView| edge_reached(d1, e) == edge_reached(d2, e),
{
    assert(crate::trace::dist_view(d1).len() == d1.len());
    assert forall|k: int| 0 <= k < d1.len() implies d1[k].node@ == d2[k].node@ && d1[k].distance == d2[k].distance by {
        assert(crate::trace::dist_view(d1)[k] == crate::trace::dist_view(d2)[k]);
    }
    assert forall|n: Seq<char>| reached(d1, n) == reached(d2, n) by {
        if reached(d1, n) {
            let k = choose|k: int| 0 <= k < d1.len() && d1[k].node@ == n;
            assert(d2[k].node@ == n);
        }
        if reached(d2, n) {
            let k = choose|k: int| 0 <= k < d2.len() && d2[k].node@ == n;
            assert(d1[k].node@ == n);
        }
    }
}

proof fn lemma_same_keys(
    nodes: Seq<TraceNodeView>,
    d1: Seq<TraceDistance>,
    d2: Seq<TraceDistance>,
    root: Seq<char>,
    evidence: Set<Seq<char>>,
    out: Seq<(nat, nat, nat, Seq<char>, Seq<char>)>,
)
    requires
        crate::trace::dist_view(d1) == crate::trace::dist_view(d2),
        semantic_order(nodes, d1, root, evidence, out),
    ensures
        semantic_order(nodes, d2, root, evidence, out),
{
    lemma_same_distances(d1, d2);
    assert forall|n: TraceNodeView, key: (nat, nat, nat, Seq<char>, Seq<char>)|
        node_key_of(n, d1, root, evidence, key) ==> node_key_of(n, d2, root, evidence, key) by {
        if node_key_of(n, d1, root, evidence, key) {
            let j = choose|j: int| recorded_distance(d1, n.id@, j) && key.1 == d1[j].distance;
            assert forall|i: int| 0 <= i < j implies d2[i].node@ != n.id@ by {
                assert(d1[i].node@ != n.id@);
            }
            assert(recorded_distance(d2, n.id@, j) && key.1 == d2[j].distance);
        }
    }
    assert forall|k: int| 0 <= k < out.len() implies #[trigger] key_of_candidate(
        nodes,
        d2,
        root,
        evidence,
        nodes.len() as int,
        out[k],
    ) by {
        assert(key_of_candidate(nodes, d1, root, evidence, nodes.len() as int, out[k]));
        let i = choose|i: int|
            0 <= i < nodes.len() && #[trigger] semantic_candidate(nodes[i], d1) && node_key_of(
                nodes[i],
                d1,
                root,
                evidence,
                out[k],
            );
        assert(semantic_candidate(nodes[i], d2));
    }
    assert forall|i: int| 0 <= i < nodes.len() && #[trigger] semantic_candidate(nodes[i], d2) implies exists|k: int|
        0 <= k < out.len() && #[trigger] out[k].4 == nodes[i].id@ by {
        assert(semantic_candidate(nodes[i], d1));
    }
}

proof fn lemma_same_listed_claims(
    ns: Seq<TraceNodeView>,
    es: Seq<TraceEdgeView>,
    d1: Seq<TraceDistance>,
    d2: Seq<TraceDistance>,
    shown: Set<Seq<char>>,
)
    requires
        forall|n: Seq<char>| reached(d1, n) == reached(d2, n),
    ensures
        listed_claims(ns, es, d1, shown) == listed_claims(ns, es, d2, shown),
    decreases ns.len(),
{
    if ns.len() > 0 {
        lemma_same_listed_claims(ns.drop_last(), es, d1, d2, shown);
        assert(claim_listed(ns.last(), es, d1, shown) == claim_listed(ns.last(), es, d2, shown));
    }
}

/// A selection over one neighbourhood is the selection over any
/// neighbourhood with the same view.
pub proof fn lemma_selection_over_same_distances(
    nodes: Seq<TraceNodeView>,
    edges: Seq<TraceEdgeView>,
    d1: Seq<TraceDistance>,
    d2: Seq<TraceDistance>,
    root: Seq<char>,
    evidence: Set<Seq<char>>,
    exact: bool,
    node_budget: nat,
    edge_budget: nat,
    r: TraceSelection,
)
    requires
        crate::trace::dist_view(d1) == crate::trace::dist_view(d2),
        trace_selected(nodes, edges, d1, root, evidence, exact, node_budget, edge_budget, r),
    ensures
        trace_selected(nodes, edges, d2, root, evidence, exact, node_budget, edge_budget, r),
{
    lemma_same_distances(d1, d2);
    lemma_same_keys(nodes, d1, d2, root, evidence, keys_view(r.ordered@));
    lemma_same_listed_claims(nodes, edges, d1, d2, r.semantic_shown@.to_set());
    let sem1 = |e: TraceEdgeView| semantic_edge(nodes, d1, r.semantic_shown@.to_set(), e);
    let sem2 = |e: TraceEdgeView| semantic_edge(nodes, d2, r.semantic_shown@.to_set(), e);
    let clm1 = |e: TraceEdgeView| claim_edge(nodes, d1, r.shown@.to_set(), e);
    let clm2 = |e: TraceEdgeView| claim_edge(nodes, d2, r.shown@.to_set(), e);
    assert(sem1 =~= sem2);
    assert(clm1 =~= clm2);
    assert(shown_edges(nodes, edges, d1, r, exact, edge_budget) == shown_edges(nodes, edges, d2, r, exact, edge_budget));
    let cnt1 = |e: TraceEdgeView| counted_edge(nodes, d1, exact, e);
    let cnt2 = |e: TraceEdgeView| counted_edge(nodes, d2, exact, e);
    assert(cnt1 =~= cnt2);
}

} // verus!
