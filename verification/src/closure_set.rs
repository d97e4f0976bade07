//! The trace view of a specification item: its closures, one per criterion
//! it covers, in criterion order and cut to the trace's budget; the evidence
//! they name, which the view takes first; the shown nodes numbered in
//! display order; and what the view left out.
use vstd::prelude::*;
use crate::catalog::ItemSummary;
use crate::closures::{
    kept_targets, catalog_claims, catalog_claims_spec, catalog_refs, closure_budgeted, closure_built, closure_targets,
    closures_size, criterion_closure, hidden_totals, implementation_set, known_targets, min_nat,
    strings_view, verification_set, apply_closure_budget, has_unresolved, ClosureHiddenCounts,
    CriterionClosureView, TraceDiagnosticView, VerificationReceiptView,
};
use crate::readiness::{axes_subjects, closure_readiness_blockers, matching_blockers, ReadinessView};
use crate::sorted::SortedStrings;
use crate::closures::insert_all;
use crate::trace::{dist_view, ids_sorted, searched, trace_distances, TraceDistance, TraceEdges, TraceNodes};
use crate::trace_view::{is_node, select_trace, trace_selected, TraceSelection};
use crate::projection::TraceSettings;
use crate::text::{owned, str_eq, string_of};
use crate::related::{claims_total, catalog_targets, related_shown, specification_related, TraceRelatedView};
use crate::trace::{TraceEdgeView, TraceNodeView};
use crate::trace_graph::{node_model, numbered, numbered_from, numbered_nodes};
use crate::trace_view::{display_key, keys_view, shown_keys};
use crate::text::seq_lt;

verus! {

/// What the specification index and the validation report hold of one
/// criterion: the targets the index records for it, and the diagnostics
/// anchored at it or at the root item.
pub struct CriterionSources {
    pub index_implementation: Vec<String>,
    pub index_verification: Vec<String>,
    pub diagnostics: Vec<TraceDiagnosticView>,
}

/// The closure of criterion `criterion`, before any budget: its targets are
/// the implementation and verification sets in ascending order, checked
/// against the catalog's targets, with the readiness blockers of the
/// subjects that concern the root item or the criterion.
pub open spec fn closure_of(
    c: CriterionClosureView,
    criterion: Seq<char>,
    sources: CriterionSources,
    items: Seq<ItemSummary>,
    readiness: ReadinessView,
    root_id: Seq<char>,
    receipt: Option<VerificationReceiptView>,
) -> bool {
    exists|iv: Seq<Seq<char>>, vv: Seq<Seq<char>>|
        {
            &&& ids_sorted(iv) && ids_sorted(vv)
            &&& iv.to_set() == implementation_set(
                criterion,
                strings_view(sources.index_implementation@),
                catalog_claims_spec(items),
            )
            &&& vv.to_set() == verification_set(
                criterion,
                strings_view(sources.index_verification@),
                catalog_claims_spec(items),
            )
            &&& closure_built(
                c,
                criterion,
                iv,
                vv,
                catalog_refs(items),
                matching_blockers(axes_subjects(readiness.axes@), root_id, criterion),
                sources.diagnostics@,
                receipt,
            )
        }
}

/// `built` holds, for each criterion of `criteria` in turn, its closure.
pub open spec fn closures_of(
    built: Seq<CriterionClosureView>,
    criteria: Seq<Seq<char>>,
    sources: Seq<CriterionSources>,
    items: Seq<ItemSummary>,
    readiness: ReadinessView,
    root_id: Seq<char>,
    receipt: Option<VerificationReceiptView>,
) -> bool {
    &&& built.len() == criteria.len()
    &&& forall|k: int|
        0 <= k < built.len() ==> closure_of(
            #[trigger] built[k],
            criteria[k],
            sources[k],
            items,
            readiness,
            root_id,
            receipt,
        )
}

/// Everything the closures list, and so everything a budget can hide,
/// can be counted in a `usize`.
pub open spec fn closures_countable(
    criteria: Seq<Seq<char>>,
    sources: Seq<CriterionSources>,
    items: Seq<ItemSummary>,
    readiness: ReadinessView,
    root_id: Seq<char>,
    receipt: Option<VerificationReceiptView>,
) -> bool {
    forall|built: Seq<CriterionClosureView>|
        closures_of(built, criteria, sources, items, readiness, root_id, receipt) ==> closures_size(built)
            <= usize::MAX
}

/// `shown` and `hidden` are what is left of `built` under `budget`: each
/// closure cut to the budget, the first `budget` of them kept, and all
/// that was cut counted.
pub open spec fn closures_cut(
    built: Seq<CriterionClosureView>,
    shown: Seq<CriterionClosureView>,
    hidden: ClosureHiddenCounts,
    budget: nat,
) -> bool {
    &&& shown.len() == min_nat(built.len(), budget)
    &&& hidden.closures == built.len() - min_nat(built.len(), budget)
    &&& exists|cut: Seq<CriterionClosureView>|
        {
            &&& cut.len() == built.len()
            &&& (forall|k: int| 0 <= k < cut.len() ==> closure_budgeted(built[k], #[trigger] cut[k], budget))
            &&& shown == cut.take(shown.len() as int)
            &&& (hidden.targets as nat, hidden.reasons as nat, hidden.readiness as nat, hidden.diagnostics as nat)
                == hidden_totals(cut, budget)
        }
}

/// `shown` and `hidden` are the closures of `criteria` cut to `budget`.
pub open spec fn closures_result(
    shown: Seq<CriterionClosureView>,
    hidden: ClosureHiddenCounts,
    criteria: Seq<Seq<char>>,
    sources: Seq<CriterionSources>,
    items: Seq<ItemSummary>,
    readiness: ReadinessView,
    root_id: Seq<char>,
    receipt: Option<VerificationReceiptView>,
    budget: nat,
) -> bool {
    exists|built: Seq<CriterionClosureView>|
        closures_of(built, criteria, sources, items, readiness, root_id, receipt) && closures_cut(
            built,
            shown,
            hidden,
            budget,
        )
}

/// Cutting closures built in criterion order keeps them in criterion order.
proof fn lemma_cut_keeps_order(
    built: Seq<CriterionClosureView>,
    shown: Seq<CriterionClosureView>,
    hidden: ClosureHiddenCounts,
    criteria: Seq<Seq<char>>,
    budget: nat,
)
    requires
        ids_sorted(criteria),
        built.len() == criteria.len(),
        forall|k: int| 0 <= k < built.len() ==> (#[trigger] built[k]).criterion@ == criteria[k],
        closures_cut(built, shown, hidden, budget),
    ensures
        forall|i: int, j: int|
            0 <= i < j < shown.len() ==> seq_lt(#[trigger] shown[i].criterion@, #[trigger] shown[j].criterion@),
{
    let cut = choose|cut: Seq<CriterionClosureView>|
        {
            &&& cut.len() == built.len()
            &&& (forall|k: int| 0 <= k < cut.len() ==> closure_budgeted(built[k], #[trigger] cut[k], budget))
            &&& shown == cut.take(shown.len() as int)
            &&& (hidden.targets as nat, hidden.reasons as nat, hidden.readiness as nat, hidden.diagnostics as nat)
                == hidden_totals(cut, budget)
        };
    assert forall|i: int, j: int| 0 <= i < j < shown.len() implies seq_lt(
        #[trigger] shown[i].criterion@,
        #[trigger] shown[j].criterion@,
    ) by {
        assert(shown[i] == cut[i]);
        assert(shown[j] == cut[j]);
        assert(closure_budgeted(built[i], cut[i], budget));
        assert(closure_budgeted(built[j], cut[j], budget));
        assert(built[i].criterion@ == criteria[i]);
        assert(built[j].criterion@ == criteria[j]);
    }
}

proof fn lemma_same_members_unresolved(targets: Seq<Seq<char>>, a: Seq<Seq<char>>, b: Seq<Seq<char>>)
    requires
        a.to_set() == b.to_set(),
    ensures
        has_unresolved(targets, a) == has_unresolved(targets, b),
{
    assert forall|x: Seq<char>| a.contains(x) == b.contains(x) by {
        if a.contains(x) {
            assert(a.to_set().contains(x));
        }
        if b.contains(x) {
            assert(b.to_set().contains(x));
        }
    }
}

/// The closures of the criteria `criteria` (in ascending order, as the
/// specification's closure anchors come), each from what the index and the
/// validation report hold of it (`sources`, criterion by criterion), the
/// catalog, the readiness view, the root item and the current verification
/// receipt; then cut to `budget`.
pub fn specification_closures(
    criteria: &SortedStrings,
    sources: Vec<CriterionSources>,
    items: &Vec<ItemSummary>,
    readiness: &ReadinessView,
    root_id: &str,
    receipt: Option<&VerificationReceiptView>,
    budget: usize,
) -> (r: (Vec<CriterionClosureView>, ClosureHiddenCounts))
    requires
        sources@.len() == criteria@.len(),
        closures_countable(
            criteria@,
            sources@,
            items@,
            *readiness,
            root_id@,
            match receipt {
                Some(rc) => Some(*rc),
                None => None,
            },
        ),
    ensures
        closures_result(
            r.0@,
            r.1,
            criteria@,
            sources@,
            items@,
            *readiness,
            root_id@,
            match receipt {
                Some(rc) => Some(*rc),
                None => None,
            },
            budget as nat,
        ),
        forall|i: int, j: int|
            0 <= i < j < r.0@.len() ==> seq_lt(#[trigger] r.0@[i].criterion@, #[trigger] r.0@[j].criterion@),
{
    let ghost rc = match receipt {
        Some(rc) => Some(*rc),
        None => None::<VerificationReceiptView>,
    };
    let ghost all_sources = sources@;
    let names = criteria.to_vec();
    criteria.len();
    let claims = catalog_claims(items);
    let known = known_targets(items);
    let mut rest = sources;
    let mut closures: Vec<CriterionClosureView> = Vec::new();
    let mut k: usize = 0;
    while k < names.len()
        invariant
            names@.map_values(|s: String| s@) == criteria@,
            all_sources.len() == criteria@.len(),
            k <= names.len(),
            rest@ == all_sources.skip(k as int),
            claimed_ok(claims@, items@),
            known@.to_set() == catalog_refs(items@).to_set(),
            closures@.len() == k,
            forall|j: int| 0 <= j < k ==> (#[trigger] closures@[j]).criterion@ == criteria@[j],
            rc == match receipt {
                Some(rc) => Some(*rc),
                None => None::<VerificationReceiptView>,
            },
            forall|j: int|
                0 <= j < k ==> closure_of(
                    #[trigger] closures@[j],
                    criteria@[j],
                    all_sources[j],
                    items@,
                    *readiness,
                    root_id@,
                    rc,
                ),
        decreases names.len() - k,
    {
        proof {
            assert(all_sources.skip(k as int)[0] == all_sources[k as int]);
        }
        let source = rest.remove(0);
        proof {
            assert(rest@ =~= all_sources.skip(k + 1));
        }
        let criterion = names[k].as_str();
        proof {
            assert(criterion@ == criteria@[k as int]);
        }
        let (implementation, verification) = closure_targets(
            criterion,
            &source.index_implementation,
            &source.index_verification,
            &claims,
        );
        implementation.len();
        verification.len();
        let blockers = closure_readiness_blockers(readiness, root_id, criterion);
        let closure = criterion_closure(
            criterion,
            &implementation,
            &verification,
            &known,
            blockers,
            source.diagnostics,
            receipt,
        );
        proof {
            let iv = implementation@;
            let vv = verification@;
            lemma_same_members_unresolved(iv + vv, known@, catalog_refs(items@));
            let bl = matching_blockers(axes_subjects(readiness.axes@), root_id@, criterion@);
            assert(closure_built(closure, criterion@, iv, vv, known@, bl, source.diagnostics@, rc));
            assert(closure_built(closure, criterion@, iv, vv, catalog_refs(items@), bl, source.diagnostics@, rc));
            assert(iv.to_set() == implementation_set(
                criterion@,
                strings_view(source.index_implementation@),
                catalog_claims_spec(items@),
            ));
            assert(closure_of(
                closure,
                criteria@[k as int],
                all_sources[k as int],
                items@,
                *readiness,
                root_id@,
                rc,
            ));
        }
        closures.push(closure);
        k = k + 1;
    }
    let ghost built = closures@;
    proof {
        assert(closures_of(built, criteria@, all_sources, items@, *readiness, root_id@, rc));
    }
    let hidden = apply_closure_budget(&mut closures, budget);
    proof {
        assert(closures_cut(built, closures@, hidden, budget as nat));
        assert(closures_result(closures@, hidden, criteria@, all_sources, items@, *readiness, root_id@, rc, budget as nat));
        lemma_cut_keeps_order(built, closures@, hidden, criteria@, budget as nat);
    }
    (closures, hidden)
}

spec fn claimed_ok(claims: Seq<crate::closures::ClaimedTarget>, items: Seq<ItemSummary>) -> bool {
    crate::closures::claimed_views(claims) == catalog_claims_spec(items)
}

/// What a closure names: its criterion and its targets.
pub open spec fn closure_names(c: CriterionClosureView) -> Set<Seq<char>> {
    set![c.criterion@] + strings_view(c.implementation_targets@).to_set() + strings_view(
        c.verification_targets@,
    ).to_set()
}

/// What the closures `cs` name, together.
pub open spec fn closures_names(cs: Seq<CriterionClosureView>) -> Set<Seq<char>>
    decreases cs.len(),
{
    if cs.len() == 0 {
        Set::empty()
    } else {
        closures_names(cs.drop_last()) + closure_names(cs.last())
    }
}

/// The evidence a trace puts first: every criterion the closures cover and
/// every target they list.
pub fn closure_evidence(closures: &Vec<CriterionClosureView>) -> (r: SortedStrings)
    ensures
        r@.to_set() == closures_names(closures@),
{
    let mut r = SortedStrings::new();
    let mut k: usize = 0;
    assert(r@.to_set() =~= Set::<Seq<char>>::empty());
    while k < closures.len()
        invariant
            k <= closures.len(),
            r@.to_set() == closures_names(closures@.take(k as int)),
        decreases closures.len() - k,
    {
        let c = &closures[k];
        r.insert(c.criterion.as_str());
        insert_all(&mut r, &c.implementation_targets);
        insert_all(&mut r, &c.verification_targets);
        proof {
            let t = closures@.take(k + 1);
            assert(t.drop_last() =~= closures@.take(k as int));
            assert(t.last() == *c);
            assert(r@.to_set() =~= closures_names(t));
        }
        k = k + 1;
    }
    assert(closures@.take(k as int) =~= closures@);
    r
}

/// What a trace view left out, count by count.
#[derive(Debug, Clone, Copy)]
pub struct TraceHiddenCounts {
    pub nodes: usize,
    pub edges: usize,
    pub related: usize,
    pub related_claims: usize,
    pub closures: usize,
    pub closure_targets: usize,
    pub reasons: usize,
    pub readiness: usize,
    pub diagnostics: usize,
}

impl TraceHiddenCounts {
    /// Whether the view left anything out.
    pub open spec fn spec_truncated(self) -> bool {
        self.nodes > 0 || self.edges > 0 || self.related > 0 || self.related_claims > 0 || self.closures > 0
            || self.closure_targets > 0 || self.reasons > 0 || self.readiness > 0 || self.diagnostics > 0
    }

    /// Whether the view left anything out: a trace is truncated as soon as
    /// one count is above zero.
    pub fn truncated(&self) -> (r: bool)
        ensures
            r == self.spec_truncated(),
    {
        self.nodes > 0 || self.edges > 0 || self.related > 0 || self.related_claims > 0 || self.closures > 0
            || self.closure_targets > 0 || self.reasons > 0 || self.readiness > 0 || self.diagnostics > 0
    }
}

/// The bounded selection of a trace around `root_id`: the neighbourhood the
/// depth reaches, with the criteria and targets of `closures` taken first,
/// shown in the settings' mode under their node and edge budgets.
pub fn closure_trace_selection(
    nodes: &TraceNodes,
    edges: &TraceEdges,
    root_id: &str,
    settings: &TraceSettings,
    closures: &Vec<CriterionClosureView>,
) -> (r: TraceSelection)
    requires
        is_node(nodes@, root_id@),
    ensures
        exists|d: Seq<TraceDistance>|
            {
                &&& searched(root_id@, edges@, settings.depth as nat, dist_view(d))
                &&& trace_selected(
                    nodes@,
                    edges@,
                    d,
                    root_id@,
                    closures_names(closures@),
                    settings.mode@ == "exact"@,
                    settings.node_budget as nat,
                    settings.edge_budget as nat,
                    r,
                )
            },
        keys_view(r.display@).to_set() == shown_keys(nodes@, r.shown@.to_set(), nodes@.len() as int),
        crate::trace_view::keys_sorted(keys_view(r.display@)),
{
    let distances = trace_distances(root_id, edges, settings.depth);
    let evidence = closure_evidence(closures);
    let exact = str_eq(settings.mode.as_str(), "exact");
    let r = select_trace(
        nodes,
        edges,
        &distances,
        root_id,
        &evidence,
        exact,
        settings.node_budget,
        settings.edge_budget,
    );
    proof {
        assert(searched(root_id@, edges@, settings.depth as nat, dist_view(distances@)));
    }
    r
}

/// The trace view of a specification item, as the browser receives it.
pub struct SpecificationTraceView {
    pub root_item_id: String,
    pub source_hash: String,
    pub mode: String,
    /// The shown nodes in display order, each numbered by its place.
    pub nodes: Vec<TraceNodeView>,
    /// The shown edges, in identity order.
    pub edges: Vec<TraceEdgeView>,
    pub related: TraceRelatedView,
    pub closures: Vec<CriterionClosureView>,
    pub hidden: TraceHiddenCounts,
    pub truncated: bool,
}

/// The identities named by the display keys `keys`, in order.
fn display_ids(nodes: &TraceNodes, shown: &SortedStrings, keys: &Vec<crate::trace_view::NodeKey>) -> (r: Vec<String>)
    requires
        keys_view(keys@).to_set() == shown_keys(nodes@, shown@.to_set(), nodes@.len() as int),
    ensures
        r@.len() == keys@.len(),
        forall|k: int| 0 <= k < r@.len() ==> (#[trigger] r@[k])@ == keys@[k].id@,
        forall|k: int| 0 <= k < r@.len() ==> is_node(nodes@, (#[trigger] r@[k])@),
{
    let mut r: Vec<String> = Vec::new();
    let mut k: usize = 0;
    while k < keys.len()
        invariant
            k <= keys.len(),
            r@.len() == k,
            keys_view(keys@).to_set() == shown_keys(nodes@, shown@.to_set(), nodes@.len() as int),
            forall|q: int| 0 <= q < k ==> (#[trigger] r@[q])@ == keys@[q].id@,
            forall|q: int| 0 <= q < k ==> is_node(nodes@, (#[trigger] r@[q])@),
        decreases keys.len() - k,
    {
        let id = string_of(&keys[k].id);
        proof {
            let kv = keys_view(keys@)[k as int];
            assert(keys_view(keys@).to_set().contains(kv));
            let i = choose|i: int|
                0 <= i < nodes@.len() && shown@.to_set().contains(nodes@[i].id@) && #[trigger] display_key(nodes@[i])
                    == kv;
            assert(nodes@[i].id@ == id@);
        }
        r.push(id);
        k = k + 1;
    }
    r
}

/// The selection `s`, over the neighbourhood `d` of `root_id` that the
/// settings' depth reaches, is the one `r` shows: with the evidence of
/// `r`'s closures first, in the settings' mode and budgets; `r`'s edges are
/// its edges and `r`'s nodes its shown nodes, numbered in display order.
pub open spec fn view_selected(
    r: SpecificationTraceView,
    nodes: Seq<TraceNodeView>,
    edges: Seq<TraceEdgeView>,
    root_id: Seq<char>,
    settings: TraceSettings,
    d: Seq<TraceDistance>,
    s: TraceSelection,
) -> bool {
    &&& searched(root_id, edges, settings.depth as nat, dist_view(d))
    &&& trace_selected(
        nodes,
        edges,
        d,
        root_id,
        closures_names(r.closures@),
        settings.mode@ == "exact"@,
        settings.node_budget as nat,
        settings.edge_budget as nat,
        s,
    )
    &&& keys_view(s.display@).to_set() == shown_keys(nodes, s.shown@.to_set(), nodes.len() as int)
    &&& crate::trace_view::keys_sorted(keys_view(s.display@))
    &&& r.edges@ == s.edges@
    &&& r.hidden.nodes == s.hidden_node_count && r.hidden.edges == s.hidden_edge_count
    &&& r.nodes@.len() == s.display@.len()
    &&& forall|k: int|
        0 <= k < r.nodes@.len() ==> (#[trigger] r.nodes@[k]).id@ == s.display@[k].id@
            && numbered_from(r.nodes@[k], nodes, k as nat)
}

/// `r` is the trace view of `root`: its closures and related entries
/// under the node budget; a selection of the graph around the root over the
/// neighbourhood the depth reaches, with the closures' evidence first; the
/// shown nodes numbered in display order; and whether anything was left out.
pub open spec fn trace_view_built(
    r: SpecificationTraceView,
    nodes: Seq<TraceNodeView>,
    edges: Seq<TraceEdgeView>,
    root: ItemSummary,
    settings: TraceSettings,
    criteria: Seq<Seq<char>>,
    sources: Seq<CriterionSources>,
    items: Seq<ItemSummary>,
    readiness: ReadinessView,
    receipt: Option<VerificationReceiptView>,
) -> bool {
    &&& r.root_item_id@ == root.id@ && r.source_hash@ == root.source_hash@ && r.mode@ == settings.mode@
    &&& closures_result(
        r.closures@,
        (ClosureHiddenCounts {
            closures: r.hidden.closures,
            targets: r.hidden.closure_targets,
            reasons: r.hidden.reasons,
            readiness: r.hidden.readiness,
            diagnostics: r.hidden.diagnostics,
        }),
        criteria,
        sources,
        items,
        readiness,
        root.id@,
        receipt,
        settings.node_budget as nat,
    )
    &&& related_shown(r.related, items, root, criteria.to_set(), settings.node_budget as nat)
    &&& r.hidden.related == r.related.hidden_count && r.hidden.related_claims == r.related.hidden_claim_count
    &&& exists|d: Seq<TraceDistance>, s: TraceSelection| view_selected(r, nodes, edges, root.id@, settings, d, s)
    &&& r.truncated == r.hidden.spec_truncated()
}

/// The trace view of `root`: its closures and related entries under the
/// node budget; the selection of the graph around it, with the closures'
/// evidence first; the shown nodes numbered in display order; and whether
/// anything was left out.
pub fn specification_trace_view(
    nodes: &TraceNodes,
    edges: &TraceEdges,
    root: &ItemSummary,
    settings: &TraceSettings,
    criteria: &SortedStrings,
    sources: Vec<CriterionSources>,
    items: &Vec<ItemSummary>,
    readiness: &ReadinessView,
    receipt: Option<&VerificationReceiptView>,
) -> (r: SpecificationTraceView)
    requires
        is_node(nodes@, root.id@),
        sources@.len() == criteria@.len(),
        closures_countable(
            criteria@,
            sources@,
            items@,
            *readiness,
            root.id@,
            match receipt {
                Some(rc) => Some(*rc),
                None => None,
            },
        ),
        2 * catalog_targets(items@).len() <= usize::MAX,
        claims_total(catalog_targets(items@)) <= usize::MAX,
    ensures
        trace_view_built(
            r,
            nodes@,
            edges@,
            *root,
            *settings,
            criteria@,
            sources@,
            items@,
            *readiness,
            match receipt {
                Some(rc) => Some(*rc),
                None => None,
            },
        ),
{
    let (closures, closure_hidden) = specification_closures(
        criteria,
        sources,
        items,
        readiness,
        root.id.as_str(),
        receipt,
        settings.node_budget,
    );
    let related = specification_related(items, root, criteria, settings.node_budget);
    let selection = closure_trace_selection(nodes, edges, root.id.as_str(), settings, &closures);
    let ids = display_ids(nodes, &selection.shown, &selection.display);
    let shown_nodes = numbered_nodes(nodes, &ids);
    let hidden = TraceHiddenCounts {
        nodes: selection.hidden_node_count,
        edges: selection.hidden_edge_count,
        related: related.hidden_count,
        related_claims: related.hidden_claim_count,
        closures: closure_hidden.closures,
        closure_targets: closure_hidden.targets,
        reasons: closure_hidden.reasons,
        readiness: closure_hidden.readiness,
        diagnostics: closure_hidden.diagnostics,
    };
    let truncated = hidden.truncated();
    let ghost sel = selection;
    let TraceSelection { edges: shown_edges, .. } = selection;
    let r = SpecificationTraceView {
        root_item_id: owned(root.id.as_str()),
        source_hash: owned(root.source_hash.as_str()),
        mode: owned(settings.mode.as_str()),
        nodes: shown_nodes,
        edges: shown_edges,
        related,
        closures,
        hidden,
        truncated,
    };
    proof {
        let d = choose|d: Seq<TraceDistance>|
            {
                &&& searched(root.id@, edges@, settings.depth as nat, dist_view(d))
                &&& trace_selected(
                    nodes@,
                    edges@,
                    d,
                    root.id@,
                    closures_names(r.closures@),
                    settings.mode@ == "exact"@,
                    settings.node_budget as nat,
                    settings.edge_budget as nat,
                    sel,
                )
            };
        assert(view_selected(r, nodes@, edges@, root.id@, *settings, d, sel));
    }
    r
}

// ---------------------------------------------------------------------------
// Laws of the trace view

/// Two strictly ascending sequences of identities with the same members
/// are equal.
proof fn lemma_sorted_ids_unique(a: Seq<Seq<char>>, b: Seq<Seq<char>>)
    requires
        ids_sorted(a),
        ids_sorted(b),
        a.to_set() == b.to_set(),
    ensures
        a == b,
    decreases a.len(),
{
    if a.len() == 0 {
        if b.len() > 0 {
            assert(b.to_set().contains(b[0]));
            assert(a.to_set().contains(b[0]));
        }
        assert(a =~= b);
    } else {
        assert(a.to_set().contains(a[0]));
        assert(b.to_set().contains(a[0]));
        let j = choose|j: int| 0 <= j < b.len() && b[j] == a[0];
        assert(b.to_set().contains(b[0]));
        assert(a.to_set().contains(b[0]));
        let i = choose|i: int| 0 <= i < a.len() && a[i] == b[0];
        if j > 0 {
            assert(seq_lt(b[0], b[j]));
            if i > 0 {
                assert(seq_lt(a[0], a[i]));
                crate::text::lemma_lt_transitive(a[0], b[0], a[0]);
            }
            crate::text::lemma_lt_irreflexive(a[0]);
        }
        assert(a[0] == b[0]);
        let a1 = a.drop_first();
        let b1 = b.drop_first();
        assert forall|x: Seq<char>| a1.to_set().contains(x) <==> b1.to_set().contains(x) by {
            if a1.to_set().contains(x) {
                let p = choose|p: int| 0 <= p < a1.len() && a1[p] == x;
                assert(a[p + 1] == x);
                assert(seq_lt(a[0], x));
                crate::text::lemma_lt_irreflexive(x);
                assert(a.to_set().contains(x));
                let q = choose|q: int| 0 <= q < b.len() && b[q] == x;
                assert(q != 0);
                assert(b1[q - 1] == x);
            }
            if b1.to_set().contains(x) {
                let p = choose|p: int| 0 <= p < b1.len() && b1[p] == x;
                assert(b[p + 1] == x);
                assert(seq_lt(b[0], x));
                crate::text::lemma_lt_irreflexive(x);
                assert(b.to_set().contains(x));
                let q = choose|q: int| 0 <= q < a.len() && a[q] == x;
                assert(q != 0);
                assert(a1[q - 1] == x);
            }
        }
        assert(a1.to_set() =~= b1.to_set());
        lemma_sorted_ids_unique(a1, b1);
        assert(a =~= seq![a[0]] + a1);
        assert(b =~= seq![b[0]] + b1);
    }
}

/// Two closures of one criterion name the same criterion and targets.
proof fn lemma_closure_of_names(
    c1: CriterionClosureView,
    c2: CriterionClosureView,
    criterion: Seq<char>,
    sources: CriterionSources,
    items: Seq<ItemSummary>,
    readiness: ReadinessView,
    root_id: Seq<char>,
    receipt: Option<VerificationReceiptView>,
)
    requires
        closure_of(c1, criterion, sources, items, readiness, root_id, receipt),
        closure_of(c2, criterion, sources, items, readiness, root_id, receipt),
    ensures
        c1.criterion@ == c2.criterion@,
        strings_view(c1.implementation_targets@) == strings_view(c2.implementation_targets@),
        strings_view(c1.verification_targets@) == strings_view(c2.verification_targets@),
{
    let (iv1, vv1) = choose|iv: Seq<Seq<char>>, vv: Seq<Seq<char>>|
        {
            &&& ids_sorted(iv) && ids_sorted(vv)
            &&& iv.to_set() == implementation_set(
                criterion,
                strings_view(sources.index_implementation@),
                catalog_claims_spec(items),
            )
            &&& vv.to_set() == verification_set(
                criterion,
                strings_view(sources.index_verification@),
                catalog_claims_spec(items),
            )
            &&& closure_built(
                c1,
                criterion,
                iv,
                vv,
                catalog_refs(items),
                matching_blockers(axes_subjects(readiness.axes@), root_id, criterion),
                sources.diagnostics@,
                receipt,
            )
        };
    let (iv2, vv2) = choose|iv: Seq<Seq<char>>, vv: Seq<Seq<char>>|
        {
            &&& ids_sorted(iv) && ids_sorted(vv)
            &&& iv.to_set() == implementation_set(
                criterion,
                strings_view(sources.index_implementation@),
                catalog_claims_spec(items),
            )
            &&& vv.to_set() == verification_set(
                criterion,
                strings_view(sources.index_verification@),
                catalog_claims_spec(items),
            )
            &&& closure_built(
                c2,
                criterion,
                iv,
                vv,
                catalog_refs(items),
                matching_blockers(axes_subjects(readiness.axes@), root_id, criterion),
                sources.diagnostics@,
                receipt,
            )
        };
    lemma_sorted_ids_unique(iv1, iv2);
    lemma_sorted_ids_unique(vv1, vv2);
}

proof fn lemma_strings_take(v: Seq<String>, n: int)
    requires
        0 <= n <= v.len(),
    ensures
        strings_view(v.take(n)) == strings_view(v).take(n),
{
    assert(strings_view(v.take(n)) =~= strings_view(v).take(n));
}

proof fn lemma_names_equal(a: Seq<CriterionClosureView>, b: Seq<CriterionClosureView>)
    requires
        a.len() == b.len(),
        forall|k: int| 0 <= k < a.len() ==> closure_names(#[trigger] a[k]) == closure_names(b[k]),
    ensures
        closures_names(a) == closures_names(b),
    decreases a.len(),
{
    if a.len() > 0 {
        lemma_names_equal(a.drop_last(), b.drop_last());
        assert(closure_names(a[a.len() - 1]) == closure_names(b[b.len() - 1]));
    }
}

/// Two cuts of the closures of the same criteria name the same criteria
/// and targets.
proof fn lemma_result_names(
    s1: Seq<CriterionClosureView>,
    h1: ClosureHiddenCounts,
    s2: Seq<CriterionClosureView>,
    h2: ClosureHiddenCounts,
    criteria: Seq<Seq<char>>,
    sources: Seq<CriterionSources>,
    items: Seq<ItemSummary>,
    readiness: ReadinessView,
    root_id: Seq<char>,
    receipt: Option<VerificationReceiptView>,
    budget: nat,
)
    requires
        closures_result(s1, h1, criteria, sources, items, readiness, root_id, receipt, budget),
        closures_result(s2, h2, criteria, sources, items, readiness, root_id, receipt, budget),
    ensures
        closures_names(s1) == closures_names(s2),
{
    let b1 = choose|built: Seq<CriterionClosureView>|
        closures_of(built, criteria, sources, items, readiness, root_id, receipt) && closures_cut(
            built,
            s1,
            h1,
            budget,
        );
    let b2 = choose|built: Seq<CriterionClosureView>|
        closures_of(built, criteria, sources, items, readiness, root_id, receipt) && closures_cut(
            built,
            s2,
            h2,
            budget,
        );
    let c1 = choose|cut: Seq<CriterionClosureView>|
        {
            &&& cut.len() == b1.len()
            &&& (forall|k: int| 0 <= k < cut.len() ==> closure_budgeted(b1[k], #[trigger] cut[k], budget))
            &&& s1 == cut.take(s1.len() as int)
            &&& (h1.targets as nat, h1.reasons as nat, h1.readiness as nat, h1.diagnostics as nat)
                == hidden_totals(cut, budget)
        };
    let c2 = choose|cut: Seq<CriterionClosureView>|
        {
            &&& cut.len() == b2.len()
            &&& (forall|k: int| 0 <= k < cut.len() ==> closure_budgeted(b2[k], #[trigger] cut[k], budget))
            &&& s2 == cut.take(s2.len() as int)
            &&& (h2.targets as nat, h2.reasons as nat, h2.readiness as nat, h2.diagnostics as nat)
                == hidden_totals(cut, budget)
        };
    assert forall|k: int| 0 <= k < s1.len() implies closure_names(#[trigger] s1[k]) == closure_names(s2[k]) by {
        assert(closure_of(b1[k], criteria[k], sources[k], items, readiness, root_id, receipt));
        assert(closure_of(b2[k], criteria[k], sources[k], items, readiness, root_id, receipt));
        lemma_closure_of_names(b1[k], b2[k], criteria[k], sources[k], items, readiness, root_id, receipt);
        assert(s1[k] == c1[k]);
        assert(s2[k] == c2[k]);
        assert(closure_budgeted(b1[k], c1[k], budget));
        assert(closure_budgeted(b2[k], c2[k], budget));
        let x1 = b1[k];
        let x2 = b2[k];
        assert(x1.implementation_targets@.len() == x2.implementation_targets@.len()) by {
            assert(strings_view(x1.implementation_targets@).len() == x1.implementation_targets@.len());
            assert(strings_view(x2.implementation_targets@).len() == x2.implementation_targets@.len());
        }
        assert(x1.verification_targets@.len() == x2.verification_targets@.len()) by {
            assert(strings_view(x1.verification_targets@).len() == x1.verification_targets@.len());
            assert(strings_view(x2.verification_targets@).len() == x2.verification_targets@.len());
        }
        let (ik, vk) = kept_targets(x1.implementation_targets@.len(), x1.verification_targets@.len(), budget);
        lemma_strings_take(x1.implementation_targets@, ik as int);
        lemma_strings_take(x2.implementation_targets@, ik as int);
        lemma_strings_take(x1.verification_targets@, vk as int);
        lemma_strings_take(x2.verification_targets@, vk as int);
        assert(strings_view(c1[k].implementation_targets@) == strings_view(c2[k].implementation_targets@));
        assert(strings_view(c1[k].verification_targets@) == strings_view(c2[k].verification_targets@));
        assert(c1[k].criterion@ == c2[k].criterion@);
    }
    lemma_names_equal(s1, s2);
}

/// The identities of nodes numbered from a selection's display order are
/// the shown identities of the graph's nodes.
proof fn lemma_display_ids(
    shown_nodes: Seq<TraceNodeView>,
    s: TraceSelection,
    nodes: Seq<TraceNodeView>,
    x: Seq<char>,
)
    requires
        shown_nodes.len() == s.display@.len(),
        forall|k: int| 0 <= k < shown_nodes.len() ==> (#[trigger] shown_nodes[k]).id@ == s.display@[k].id@,
        keys_view(s.display@).to_set() == shown_keys(nodes, s.shown@.to_set(), nodes.len() as int),
    ensures
        (exists|k: int| 0 <= k < shown_nodes.len() && shown_nodes[k].id@ == x) <==> (exists|i: int|
            0 <= i < nodes.len() && s.shown@.to_set().contains(nodes[i].id@) && nodes[i].id@ == x),
{
    let kv = keys_view(s.display@);
    if exists|k: int| 0 <= k < shown_nodes.len() && shown_nodes[k].id@ == x {
        let k = choose|k: int| 0 <= k < shown_nodes.len() && shown_nodes[k].id@ == x;
        assert(kv[k].4 == x);
        assert(kv.to_set().contains(kv[k]));
        let i = choose|i: int|
            0 <= i < nodes.len() && s.shown@.to_set().contains(nodes[i].id@) && #[trigger] display_key(nodes[i]) == kv[k];
        assert(nodes[i].id@ == x);
    }
    if exists|i: int| 0 <= i < nodes.len() && s.shown@.to_set().contains(nodes[i].id@) && nodes[i].id@ == x {
        let i = choose|i: int| 0 <= i < nodes.len() && s.shown@.to_set().contains(nodes[i].id@) && nodes[i].id@ == x;
        assert(shown_keys(nodes, s.shown@.to_set(), nodes.len() as int).contains(display_key(nodes[i])));
        assert(kv.to_set().contains(display_key(nodes[i])));
        let k = choose|k: int| 0 <= k < kv.len() && kv[k] == display_key(nodes[i]);
        assert(shown_nodes[k].id@ == x);
    }
}

/// Some node of `v` has identity `x`.
pub open spec fn shows_node(v: Seq<TraceNodeView>, x: Seq<char>) -> bool {
    exists|k: int| 0 <= k < v.len() && v[k].id@ == x
}

/// Some node of `v` that is not a claim has identity `x`.
pub open spec fn shows_unclaimed_node(v: Seq<TraceNodeView>, x: Seq<char>) -> bool {
    exists|k: int| 0 <= k < v.len() && v[k].id@ == x && v[k].kind@ != "claim"@
}

/// The readable and the exact trace view of one item, drawn from the same
/// graph, catalog and evidence with the same depth and budgets, show the
/// same nodes apart from claims, and the readable view's edges are the
/// exact view's edges that touch no claim, in the same order (the root is
/// taken not to be a claim node).
pub proof fn lemma_trace_views_agree(
    readable: SpecificationTraceView,
    exact: SpecificationTraceView,
    nodes: Seq<TraceNodeView>,
    edges: Seq<TraceEdgeView>,
    root: ItemSummary,
    readable_settings: TraceSettings,
    exact_settings: TraceSettings,
    criteria: Seq<Seq<char>>,
    sources: Seq<CriterionSources>,
    items: Seq<ItemSummary>,
    readiness: ReadinessView,
    receipt: Option<VerificationReceiptView>,
)
    requires
        ids_sorted(crate::trace::node_ids(nodes)),
        !crate::trace_view::is_claim_node(nodes, root.id@),
        readable_settings.mode@ == "readable"@,
        exact_settings.mode@ == "exact"@,
        readable_settings.depth == exact_settings.depth,
        readable_settings.node_budget == exact_settings.node_budget,
        readable_settings.edge_budget == exact_settings.edge_budget,
        trace_view_built(
            readable,
            nodes,
            edges,
            root,
            readable_settings,
            criteria,
            sources,
            items,
            readiness,
            receipt,
        ),
        trace_view_built(exact, nodes, edges, root, exact_settings, criteria, sources, items, readiness, receipt),
    ensures
        forall|x: Seq<char>|
            #![trigger shows_node(readable.nodes@, x)]
            #![trigger shows_unclaimed_node(exact.nodes@, x)]
            shows_node(readable.nodes@, x) <==> shows_unclaimed_node(exact.nodes@, x),
        readable.edges@ == exact.edges@.filter(|e: TraceEdgeView| !crate::trace_view::touches_claim(nodes, e)),
{
    reveal_strlit("readable");
    reveal_strlit("exact");
    let depth = exact_settings.depth as nat;
    let nb = exact_settings.node_budget as nat;
    let eb = exact_settings.edge_budget as nat;
    let hr = (ClosureHiddenCounts {
        closures: readable.hidden.closures,
        targets: readable.hidden.closure_targets,
        reasons: readable.hidden.reasons,
        readiness: readable.hidden.readiness,
        diagnostics: readable.hidden.diagnostics,
    });
    let he = (ClosureHiddenCounts {
        closures: exact.hidden.closures,
        targets: exact.hidden.closure_targets,
        reasons: exact.hidden.reasons,
        readiness: exact.hidden.readiness,
        diagnostics: exact.hidden.diagnostics,
    });
    lemma_result_names(
        readable.closures@,
        hr,
        exact.closures@,
        he,
        criteria,
        sources,
        items,
        readiness,
        root.id@,
        receipt,
        nb,
    );
    let ev = closures_names(exact.closures@);
    let (dr, sr) = choose|d: Seq<TraceDistance>, s: TraceSelection| view_selected(readable, nodes, edges, root.id@, readable_settings, d, s);
    let (de, se) = choose|d: Seq<TraceDistance>, s: TraceSelection| view_selected(exact, nodes, edges, root.id@, exact_settings, d, s);
    crate::trace::lemma_searched_unique(root.id@, edges, depth, dist_view(dr), dist_view(de));
    assert(readable_settings.mode@ != "exact"@) by {
        assert(readable_settings.mode@.len() != "exact"@.len());
    }
    assert(closures_names(readable.closures@) == ev);
    assert(trace_selected(
        nodes,
        edges,
        dr,
        root.id@,
        closures_names(readable.closures@),
        readable_settings.mode@ == "exact"@,
        readable_settings.node_budget as nat,
        readable_settings.edge_budget as nat,
        sr,
    ));
    assert(trace_selected(nodes, edges, dr, root.id@, ev, false, nb, eb, sr));
    crate::trace_view::lemma_selection_over_same_distances(nodes, edges, dr, de, root.id@, ev, false, nb, eb, sr);
    crate::trace_view::lemma_readable_exact_agree(nodes, edges, de, root.id@, ev, nb, eb, sr, se);
    assert forall|x: Seq<char>|
        #![trigger shows_node(readable.nodes@, x)]
        #![trigger shows_unclaimed_node(exact.nodes@, x)]
        shows_node(readable.nodes@, x) <==> shows_unclaimed_node(exact.nodes@, x) by {
        lemma_display_ids(readable.nodes@, sr, nodes, x);
        lemma_display_ids(exact.nodes@, se, nodes, x);
        if exists|k: int| 0 <= k < readable.nodes@.len() && readable.nodes@[k].id@ == x {
            let i = choose|i: int| 0 <= i < nodes.len() && sr.shown@.to_set().contains(nodes[i].id@) && nodes[i].id@ == x;
            assert(sr.shown@.to_set().contains(x));
            assert(se.shown@.to_set().contains(x) && !crate::trace_view::is_claim_node(nodes, x));
            let k = choose|k: int| 0 <= k < exact.nodes@.len() && exact.nodes@[k].id@ == x;
            assert(numbered_from(exact.nodes@[k], nodes, k as nat));
            let j = choose|j: int| 0 <= j < nodes.len() && #[trigger] numbered(exact.nodes@[k], nodes[j], k as nat);
            assert(node_model(exact.nodes@[k]).kind == node_model(nodes[j]).kind);
            assert(nodes[j].id@ == x);
            assert(exact.nodes@[k].kind@ != "claim"@);
        }
        if exists|k: int| 0 <= k < exact.nodes@.len() && exact.nodes@[k].id@ == x && exact.nodes@[k].kind@ != "claim"@ {
            let k = choose|k: int| 0 <= k < exact.nodes@.len() && exact.nodes@[k].id@ == x && exact.nodes@[k].kind@ != "claim"@;
            assert(numbered_from(exact.nodes@[k], nodes, k as nat));
            let j = choose|j: int| 0 <= j < nodes.len() && #[trigger] numbered(exact.nodes@[k], nodes[j], k as nat);
            assert(node_model(exact.nodes@[k]).kind == node_model(nodes[j]).kind);
            assert(nodes[j].kind@ != "claim"@);
            assert(nodes[j].id@ == x);
            assert(!crate::trace_view::is_claim_node(nodes, x)) by {
                if crate::trace_view::is_claim_node(nodes, x) {
                    let m = choose|m: int| 0 <= m < nodes.len() && nodes[m].id@ == x && nodes[m].kind@ == "claim"@;
                    assert(m != j);
                    let ids = crate::trace::node_ids(nodes);
                    assert(ids[m] == x && ids[j] == x);
                    if m < j {
                        assert(seq_lt(ids[m], ids[j]));
                    } else {
                        assert(seq_lt(ids[j], ids[m]));
                    }
                    crate::text::lemma_lt_irreflexive(x);
                }
            }
            assert(se.shown@.to_set().contains(x));
            assert(sr.shown@.to_set().contains(x));
        }
    }
}

pub open spec fn opt_text(o: Option<String>) -> Option<Seq<char>> {
    match o {
        Some(t) => Some(t@),
        None => None,
    }
}

/// What a closure shows, as plain values.
pub open spec fn closure_model(c: CriterionClosureView) -> (
    (Seq<char>, Seq<Seq<char>>, Seq<Seq<char>>, Seq<char>),
    (Seq<Seq<char>>, Seq<Seq<char>>, Seq<TraceDiagnosticView>),
    (
        Seq<char>,
        Option<Seq<char>>,
        Option<Seq<char>>,
        Option<Seq<char>>,
        Seq<(Seq<char>, Seq<char>, Option<(Seq<char>, Seq<char>)>, Seq<char>)>,
    ),
    (usize, usize, usize, usize),
) {
    (
        (c.criterion@, strings_view(c.implementation_targets@), strings_view(c.verification_targets@), c.state@),
        (strings_view(c.reasons@), strings_view(c.readiness_blockers@), c.diagnostics@),
        (
            c.runtime_status@,
            opt_text(c.runtime_timestamp),
            opt_text(c.runtime_revision),
            opt_text(c.runtime_receipt),
            crate::closures::executions_view(c.runtime_executions@),
        ),
        (c.hidden_target_count, c.hidden_reason_count, c.hidden_readiness_count, c.hidden_diagnostic_count),
    )
}

/// Two closures of one criterion show the same.
proof fn lemma_closure_of_unique(
    c1: CriterionClosureView,
    c2: CriterionClosureView,
    criterion: Seq<char>,
    sources: CriterionSources,
    items: Seq<ItemSummary>,
    readiness: ReadinessView,
    root_id: Seq<char>,
    receipt: Option<VerificationReceiptView>,
)
    requires
        closure_of(c1, criterion, sources, items, readiness, root_id, receipt),
        closure_of(c2, criterion, sources, items, readiness, root_id, receipt),
    ensures
        closure_model(c1) == closure_model(c2),
{
    lemma_closure_of_names(c1, c2, criterion, sources, items, readiness, root_id, receipt);
    let (iv, vv) = choose|iv: Seq<Seq<char>>, vv: Seq<Seq<char>>|
        {
            &&& ids_sorted(iv) && ids_sorted(vv)
            &&& iv.to_set() == implementation_set(
                criterion,
                strings_view(sources.index_implementation@),
                catalog_claims_spec(items),
            )
            &&& vv.to_set() == verification_set(
                criterion,
                strings_view(sources.index_verification@),
                catalog_claims_spec(items),
            )
            &&& closure_built(
                c1,
                criterion,
                iv,
                vv,
                catalog_refs(items),
                matching_blockers(axes_subjects(readiness.axes@), root_id, criterion),
                sources.diagnostics@,
                receipt,
            )
        };
    let (iv2, vv2) = choose|iv: Seq<Seq<char>>, vv: Seq<Seq<char>>|
        {
            &&& ids_sorted(iv) && ids_sorted(vv)
            &&& iv.to_set() == implementation_set(
                criterion,
                strings_view(sources.index_implementation@),
                catalog_claims_spec(items),
            )
            &&& vv.to_set() == verification_set(
                criterion,
                strings_view(sources.index_verification@),
                catalog_claims_spec(items),
            )
            &&& closure_built(
                c2,
                criterion,
                iv,
                vv,
                catalog_refs(items),
                matching_blockers(axes_subjects(readiness.axes@), root_id, criterion),
                sources.diagnostics@,
                receipt,
            )
        };
    lemma_sorted_ids_unique(iv, iv2);
    lemma_sorted_ids_unique(vv, vv2);
    assert(opt_text(c1.runtime_timestamp) == opt_text(c2.runtime_timestamp));
    assert(opt_text(c1.runtime_revision) == opt_text(c2.runtime_revision));
    assert(opt_text(c1.runtime_receipt) == opt_text(c2.runtime_receipt));
}

/// Cutting two closures that show the same to one budget gives closures
/// that show the same.
proof fn lemma_cut_unique(
    b1: CriterionClosureView,
    a1: CriterionClosureView,
    b2: CriterionClosureView,
    a2: CriterionClosureView,
    budget: nat,
)
    requires
        closure_model(b1) == closure_model(b2),
        closure_budgeted(b1, a1, budget),
        closure_budgeted(b2, a2, budget),
    ensures
        closure_model(a1) == closure_model(a2),
{
    assert(strings_view(b1.implementation_targets@).len() == b1.implementation_targets@.len());
    assert(strings_view(b2.implementation_targets@).len() == b2.implementation_targets@.len());
    assert(strings_view(b1.verification_targets@).len() == b1.verification_targets@.len());
    assert(strings_view(b2.verification_targets@).len() == b2.verification_targets@.len());
    assert(strings_view(b1.reasons@).len() == b1.reasons@.len());
    assert(strings_view(b2.reasons@).len() == b2.reasons@.len());
    assert(strings_view(b1.readiness_blockers@).len() == b1.readiness_blockers@.len());
    assert(strings_view(b2.readiness_blockers@).len() == b2.readiness_blockers@.len());
    let (ik, vk) = kept_targets(b1.implementation_targets@.len(), b1.verification_targets@.len(), budget);
    lemma_strings_take(b1.implementation_targets@, ik as int);
    lemma_strings_take(b2.implementation_targets@, ik as int);
    lemma_strings_take(b1.verification_targets@, vk as int);
    lemma_strings_take(b2.verification_targets@, vk as int);
    let rn = min_nat(b1.reasons@.len(), budget) as int;
    let bn = min_nat(b1.readiness_blockers@.len(), budget) as int;
    lemma_strings_take(b1.reasons@, rn);
    lemma_strings_take(b2.reasons@, rn);
    lemma_strings_take(b1.readiness_blockers@, bn);
    lemma_strings_take(b2.readiness_blockers@, bn);
    assert(a1.criterion == b1.criterion && a2.criterion == b2.criterion);
}

proof fn lemma_totals_unique(c1: Seq<CriterionClosureView>, c2: Seq<CriterionClosureView>, budget: nat)
    requires
        c1.len() == c2.len(),
        forall|k: int| 0 <= k < c1.len() ==> closure_model(#[trigger] c1[k]) == closure_model(c2[k]),
    ensures
        hidden_totals(c1, budget) == hidden_totals(c2, budget),
    decreases c1.len(),
{
    if c1.len() > 0 {
        lemma_totals_unique(c1.drop_last(), c2.drop_last(), budget);
        let x1 = c1.last();
        let x2 = c2.last();
        assert(closure_model(c1[c1.len() - 1]) == closure_model(c2[c2.len() - 1]));
        assert(strings_view(x1.implementation_targets@).len() == x1.implementation_targets@.len());
        assert(strings_view(x2.implementation_targets@).len() == x2.implementation_targets@.len());
        assert(strings_view(x1.verification_targets@).len() == x1.verification_targets@.len());
        assert(strings_view(x2.verification_targets@).len() == x2.verification_targets@.len());
        assert(strings_view(x1.reasons@).len() == x1.reasons@.len());
        assert(strings_view(x2.reasons@).len() == x2.reasons@.len());
        assert(strings_view(x1.readiness_blockers@).len() == x1.readiness_blockers@.len());
        assert(strings_view(x2.readiness_blockers@).len() == x2.readiness_blockers@.len());
    }
}

/// Two cuts of the closures of the same criteria show the same closures
/// and hide the same.
proof fn lemma_result_unique(
    s1: Seq<CriterionClosureView>,
    h1: ClosureHiddenCounts,
    s2: Seq<CriterionClosureView>,
    h2: ClosureHiddenCounts,
    criteria: Seq<Seq<char>>,
    sources: Seq<CriterionSources>,
    items: Seq<ItemSummary>,
    readiness: ReadinessView,
    root_id: Seq<char>,
    receipt: Option<VerificationReceiptView>,
    budget: nat,
)
    requires
        closures_result(s1, h1, criteria, sources, items, readiness, root_id, receipt, budget),
        closures_result(s2, h2, criteria, sources, items, readiness, root_id, receipt, budget),
    ensures
        s1.len() == s2.len(),
        forall|k: int| 0 <= k < s1.len() ==> closure_model(#[trigger] s1[k]) == closure_model(s2[k]),
        h1.closures == h2.closures && h1.targets == h2.targets && h1.reasons == h2.reasons,
        h1.readiness == h2.readiness && h1.diagnostics == h2.diagnostics,
{
    let b1 = choose|built: Seq<CriterionClosureView>|
        closures_of(built, criteria, sources, items, readiness, root_id, receipt) && closures_cut(
            built,
            s1,
            h1,
            budget,
        );
    let b2 = choose|built: Seq<CriterionClosureView>|
        closures_of(built, criteria, sources, items, readiness, root_id, receipt) && closures_cut(
            built,
            s2,
            h2,
            budget,
        );
    let c1 = choose|cut: Seq<CriterionClosureView>|
        {
            &&& cut.len() == b1.len()
            &&& (forall|k: int| 0 <= k < cut.len() ==> closure_budgeted(b1[k], #[trigger] cut[k], budget))
            &&& s1 == cut.take(s1.len() as int)
            &&& (h1.targets as nat, h1.reasons as nat, h1.readiness as nat, h1.diagnostics as nat)
                == hidden_totals(cut, budget)
        };
    let c2 = choose|cut: Seq<CriterionClosureView>|
        {
            &&& cut.len() == b2.len()
            &&& (forall|k: int| 0 <= k < cut.len() ==> closure_budgeted(b2[k], #[trigger] cut[k], budget))
            &&& s2 == cut.take(s2.len() as int)
            &&& (h2.targets as nat, h2.reasons as nat, h2.readiness as nat, h2.diagnostics as nat)
                == hidden_totals(cut, budget)
        };
    assert forall|k: int| 0 <= k < c1.len() implies closure_model(#[trigger] c1[k]) == closure_model(c2[k]) by {
        assert(closure_of(b1[k], criteria[k], sources[k], items, readiness, root_id, receipt));
        assert(closure_of(b2[k], criteria[k], sources[k], items, readiness, root_id, receipt));
        lemma_closure_of_unique(b1[k], b2[k], criteria[k], sources[k], items, readiness, root_id, receipt);
        lemma_cut_unique(b1[k], c1[k], b2[k], c2[k], budget);
    }
    lemma_totals_unique(c1, c2, budget);
    assert forall|k: int| 0 <= k < s1.len() implies closure_model(#[trigger] s1[k]) == closure_model(s2[k]) by {
        assert(s1[k] == c1[k]);
        assert(s2[k] == c2[k]);
    }
}

/// A trace view is determined by what it is drawn from: two views of one
/// item from the same graph, catalog, evidence and settings show the same
/// root, mode and source hash; the same nodes (identity, content and stable
/// order) in the same order; the same edges; the same closures and related
/// entries; and hide the same, so are truncated alike.
pub proof fn lemma_trace_view_deterministic(
    r1: SpecificationTraceView,
    r2: SpecificationTraceView,
    nodes: Seq<TraceNodeView>,
    edges: Seq<TraceEdgeView>,
    root: ItemSummary,
    settings: TraceSettings,
    criteria: Seq<Seq<char>>,
    sources: Seq<CriterionSources>,
    items: Seq<ItemSummary>,
    readiness: ReadinessView,
    receipt: Option<VerificationReceiptView>,
)
    requires
        ids_sorted(crate::trace::node_ids(nodes)),
        trace_view_built(r1, nodes, edges, root, settings, criteria, sources, items, readiness, receipt),
        trace_view_built(r2, nodes, edges, root, settings, criteria, sources, items, readiness, receipt),
    ensures
        r1.nodes@.len() == r2.nodes@.len(),
        forall|k: int|
            0 <= k < r1.nodes@.len() ==> (#[trigger] r1.nodes@[k]).id@ == r2.nodes@[k].id@ && node_model(r1.nodes@[k])
                == node_model(r2.nodes@[k]) && r1.nodes@[k].stable_order == r2.nodes@[k].stable_order,
        r1.edges@ == r2.edges@,
        closures_names(r1.closures@) == closures_names(r2.closures@),
        r1.root_item_id@ == r2.root_item_id@ && r1.mode@ == r2.mode@ && r1.source_hash@ == r2.source_hash@,
        r1.closures@.len() == r2.closures@.len(),
        forall|k: int|
            0 <= k < r1.closures@.len() ==> closure_model(#[trigger] r1.closures@[k]) == closure_model(r2.closures@[k]),
        crate::related::spec_models(r1.related.specification@) == crate::related::spec_models(
            r2.related.specification@,
        ),
        crate::related::related_models(r1.related.implementation@) == crate::related::related_models(
            r2.related.implementation@,
        ),
        crate::related::related_models(r1.related.verification@) == crate::related::related_models(
            r2.related.verification@,
        ),
        r1.related.hidden_count == r2.related.hidden_count,
        r1.related.hidden_claim_count == r2.related.hidden_claim_count,
        r1.hidden == r2.hidden,
        r1.truncated == r2.truncated,
{
    let nb = settings.node_budget as nat;
    let eb = settings.edge_budget as nat;
    let exact = settings.mode@ == "exact"@;
    lemma_result_names(
        r1.closures@,
        (ClosureHiddenCounts {
            closures: r1.hidden.closures,
            targets: r1.hidden.closure_targets,
            reasons: r1.hidden.reasons,
            readiness: r1.hidden.readiness,
            diagnostics: r1.hidden.diagnostics,
        }),
        r2.closures@,
        (ClosureHiddenCounts {
            closures: r2.hidden.closures,
            targets: r2.hidden.closure_targets,
            reasons: r2.hidden.reasons,
            readiness: r2.hidden.readiness,
            diagnostics: r2.hidden.diagnostics,
        }),
        criteria,
        sources,
        items,
        readiness,
        root.id@,
        receipt,
        nb,
    );
    lemma_result_unique(
        r1.closures@,
        (ClosureHiddenCounts {
            closures: r1.hidden.closures,
            targets: r1.hidden.closure_targets,
            reasons: r1.hidden.reasons,
            readiness: r1.hidden.readiness,
            diagnostics: r1.hidden.diagnostics,
        }),
        r2.closures@,
        (ClosureHiddenCounts {
            closures: r2.hidden.closures,
            targets: r2.hidden.closure_targets,
            reasons: r2.hidden.reasons,
            readiness: r2.hidden.readiness,
            diagnostics: r2.hidden.diagnostics,
        }),
        criteria,
        sources,
        items,
        readiness,
        root.id@,
        receipt,
        nb,
    );
    crate::related::lemma_related_shown_unique(r1.related, r2.related, items, root, criteria.to_set(), nb);
    let ev = closures_names(r2.closures@);
    let (d1, s1) = choose|d: Seq<TraceDistance>, s: TraceSelection| view_selected(r1, nodes, edges, root.id@, settings, d, s);
    let (d2, s2) = choose|d: Seq<TraceDistance>, s: TraceSelection| view_selected(r2, nodes, edges, root.id@, settings, d, s);
    crate::trace::lemma_searched_unique(root.id@, edges, settings.depth as nat, dist_view(d1), dist_view(d2));
    assert(trace_selected(nodes, edges, d1, root.id@, ev, exact, nb, eb, s1));
    crate::trace_view::lemma_selection_over_same_distances(nodes, edges, d1, d2, root.id@, ev, exact, nb, eb, s1);
    // The same candidates in the same order, so the same semantic nodes.
    crate::trace_view::lemma_semantic_order_unique(
        nodes,
        d2,
        root.id@,
        ev,
        keys_view(s1.ordered@),
        keys_view(s2.ordered@),
    );
    assert(s1.semantic_shown@.to_set() == s2.semantic_shown@.to_set());
    lemma_sorted_ids_unique(s1.semantic_shown@, s2.semantic_shown@);
    // The same claims, so the same shown nodes.
    assert(s1.claims@.map_values(|x: String| x@) == s2.claims@.map_values(|x: String| x@));
    assert(s1.claims@.len() == s2.claims@.len()) by {
        assert(s1.claims@.map_values(|x: String| x@).len() == s1.claims@.len());
        assert(s2.claims@.map_values(|x: String| x@).len() == s2.claims@.len());
    }
    assert(s1.shown@.to_set() == s2.shown@.to_set());
    lemma_sorted_ids_unique(s1.shown@, s2.shown@);
    // The same edges.
    let sem1 = |e: TraceEdgeView| crate::trace_view::semantic_edge(nodes, d2, s1.semantic_shown@.to_set(), e);
    let sem2 = |e: TraceEdgeView| crate::trace_view::semantic_edge(nodes, d2, s2.semantic_shown@.to_set(), e);
    let clm1 = |e: TraceEdgeView| crate::trace_view::claim_edge(nodes, d2, s1.shown@.to_set(), e);
    let clm2 = |e: TraceEdgeView| crate::trace_view::claim_edge(nodes, d2, s2.shown@.to_set(), e);
    assert(sem1 =~= sem2);
    assert(clm1 =~= clm2);
    assert(crate::trace_view::shown_edges(nodes, edges, d2, s1, exact, eb) == crate::trace_view::shown_edges(
        nodes,
        edges,
        d2,
        s2,
        exact,
        eb,
    ));
    // The same display order, so the same numbered nodes.
    let k1 = keys_view(s1.display@);
    let k2 = keys_view(s2.display@);
    assert forall|x: (nat, nat, nat, Seq<char>, Seq<char>)| k1.contains(x) <==> k2.contains(x) by {
        assert(k1.to_set().contains(x) == k1.contains(x));
        assert(k2.to_set().contains(x) == k2.contains(x));
    }
    crate::trace_view::lemma_sorted_same_members(k1, k2);
    assert(k1.len() == s1.display@.len() && k2.len() == s2.display@.len());
    assert(r1.nodes@.len() == r2.nodes@.len());
    assert forall|k: int| 0 <= k < r1.nodes@.len() implies (#[trigger] r1.nodes@[k]).id@ == r2.nodes@[k].id@
        && node_model(r1.nodes@[k]) == node_model(r2.nodes@[k]) && r1.nodes@[k].stable_order
        == r2.nodes@[k].stable_order by {
        assert(k1[k] == k2[k]);
        assert(s1.display@[k].id@ == k1[k].4);
        assert(s2.display@[k].id@ == k2[k].4);
        assert(numbered_from(r1.nodes@[k], nodes, k as nat));
        assert(numbered_from(r2.nodes@[k], nodes, k as nat));
        let j1 = choose|j: int| 0 <= j < nodes.len() && #[trigger] numbered(r1.nodes@[k], nodes[j], k as nat);
        let j2 = choose|j: int| 0 <= j < nodes.len() && #[trigger] numbered(r2.nodes@[k], nodes[j], k as nat);
        if j1 != j2 {
            let ids = crate::trace::node_ids(nodes);
            assert(ids[j1] == ids[j2]);
            if j1 < j2 {
                assert(seq_lt(ids[j1], ids[j2]));
            } else {
                assert(seq_lt(ids[j2], ids[j1]));
            }
            crate::text::lemma_lt_irreflexive(ids[j1]);
        }
    }
    // The same counts hidden, so the same truncation.
    assert(s1.hidden_node_count == s2.hidden_node_count);
    assert(s1.hidden_edge_count == s2.hidden_edge_count);
    assert(r1.hidden == r2.hidden);
}

} // verus!
