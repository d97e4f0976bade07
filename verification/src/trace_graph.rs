//! How the trace graph is built from the catalog: the nodes anchors and
//! targets make, and the edges and nodes of the claims targets make.
use vstd::prelude::*;
use crate::capabilities::strs;
use crate::catalog::{ItemSummary, TargetClaim};
use crate::text::{append, chars_of, first_occurrence, owned, str_eq, string_of};
use crate::trace::{trace_node, TraceMetadataEntry, TraceNodeSpec, TraceNodeView, TraceNodes};
use crate::catalog::{BindingSummary, BindingTargetSummary};

verus! {

/// What a target selects within its file.
#[derive(Debug, Clone)]
pub enum Selector {
    File,
    Symbol { name: String },
    Operation { method: String, path: String },
    Heading { value: String },
    JsonPointer { value: String },
    Marker { value: String },
}

pub open spec fn spec_selector_label(s: Selector) -> Seq<char> {
    match s {
        Selector::File => "file"@,
        Selector::Symbol { name } => "symbol · "@ + name@,
        Selector::Operation { method, path } => method@ + " "@ + path@,
        Selector::Heading { value } => "heading · "@ + value@,
        Selector::JsonPointer { value } => "json pointer · "@ + value@,
        Selector::Marker { value } => "marker · "@ + value@,
    }
}

fn joined(a: &str, b: &str) -> (r: String)
    ensures
        r@ == a@ + b@,
{
    let mut r = owned(a);
    append(&mut r, b);
    r
}

/// How a selector is shown.
pub fn selector_label(selector: &Selector) -> (r: String)
    ensures
        r@ == spec_selector_label(*selector),
{
    match selector {
        Selector::File => owned("file"),
        Selector::Symbol { name } => joined("symbol · ", name.as_str()),
        Selector::Operation { method, path } => {
            let mut r = joined(method.as_str(), " ");
            append(&mut r, path.as_str());
            r
        },
        Selector::Heading { value } => joined("heading · ", value.as_str()),
        Selector::JsonPointer { value } => joined("json pointer · ", value.as_str()),
        Selector::Marker { value } => joined("marker · ", value.as_str()),
    }
}

/// Where a claim leads: the relation, the destination and its label.
pub struct ClaimDestination {
    pub relation: String,
    pub destination: String,
    pub label: String,
}

pub open spec fn destination_model(d: ClaimDestination) -> (Seq<char>, Seq<char>, Seq<char>) {
    (d.relation@, d.destination@, d.label@)
}

pub open spec fn destinations_model(v: Seq<ClaimDestination>) -> Seq<(Seq<char>, Seq<char>, Seq<char>)> {
    v.map_values(|d: ClaimDestination| destination_model(d))
}

pub open spec fn each_to(targets: Seq<Seq<char>>, relation: Seq<char>, label: Seq<char>) -> Seq<(Seq<char>, Seq<char>, Seq<char>)> {
    targets.map_values(|t: Seq<char>| (relation, t, label))
}

/// Where a claim leads: a criterion it satisfies or verifies (and the
/// targets a verification covers), the anchor it documents or evidences,
/// the rule it enforces, the targets it is generated from, the target it
/// exposes.
pub open spec fn spec_claim_destinations(c: TargetClaim) -> Seq<(Seq<char>, Seq<char>, Seq<char>)> {
    match c {
        TargetClaim::Satisfies { criterion } => seq![("satisfies"@, criterion@, "satisfies"@)],
        TargetClaim::Verifies { criterion, covers } => seq![("verifies"@, criterion@, "verifies"@)] + each_to(
            strs(covers@),
            "covers"@,
            "covers"@,
        ),
        TargetClaim::Documents { anchor } => seq![("documents"@, anchor@, "documents"@)],
        TargetClaim::Enforces { rule } => seq![("enforces"@, rule@, "enforces"@)],
        TargetClaim::GeneratedFrom { targets } => each_to(strs(targets@), "generated-from"@, "generated from"@),
        TargetClaim::Exposes { target } => seq![("exposes"@, target@, "exposes"@)],
        TargetClaim::Evidences { anchor } => seq![("evidences"@, anchor@, "evidences"@)],
    }
}

fn destination(relation: &str, to: &str, label: &str) -> (r: ClaimDestination)
    ensures
        destination_model(r) == (relation@, to@, label@),
{
    ClaimDestination { relation: owned(relation), destination: owned(to), label: owned(label) }
}

fn push_each(out: &mut Vec<ClaimDestination>, targets: &Vec<String>, relation: &str, label: &str)
    ensures
        destinations_model(final(out)@) == destinations_model(old(out)@) + each_to(strs(targets@), relation@, label@),
{
    let ghost start = destinations_model(out@);
    let mut i: usize = 0;
    while i < targets.len()
        invariant
            i <= targets.len(),
            destinations_model(out@) == start + each_to(strs(targets@).take(i as int), relation@, label@),
        decreases targets.len() - i,
    {
        let ghost before = out@;
        out.push(destination(relation, targets[i].as_str(), label));
        proof {
            let x = targets@[i as int]@;
            assert(strs(targets@).take(i + 1) =~= strs(targets@).take(i as int).push(x));
            assert(each_to(strs(targets@).take(i + 1), relation@, label@) =~= each_to(
                strs(targets@).take(i as int),
                relation@,
                label@,
            ).push((relation@, x, label@)));
            assert(destinations_model(out@) =~= destinations_model(before).push((relation@, x, label@)));
            assert(destinations_model(out@) =~= start + each_to(strs(targets@).take(i + 1), relation@, label@));
        }
        i = i + 1;
    }
    proof {
        assert(strs(targets@).take(targets@.len() as int) =~= strs(targets@));
    }
}

/// Where a claim leads.
pub fn claim_destinations(claim: &TargetClaim) -> (r: Vec<ClaimDestination>)
    ensures
        destinations_model(r@) == spec_claim_destinations(*claim),
{
    let mut out: Vec<ClaimDestination> = Vec::new();
    match claim {
        TargetClaim::Satisfies { criterion } => {
            out.push(destination("satisfies", criterion.as_str(), "satisfies"));
        },
        TargetClaim::Verifies { criterion, covers } => {
            out.push(destination("verifies", criterion.as_str(), "verifies"));
            push_each(&mut out, covers, "covers", "covers");
        },
        TargetClaim::Documents { anchor } => {
            out.push(destination("documents", anchor.as_str(), "documents"));
        },
        TargetClaim::Enforces { rule } => {
            out.push(destination("enforces", rule.as_str(), "enforces"));
        },
        TargetClaim::GeneratedFrom { targets } => {
            push_each(&mut out, targets, "generated-from", "generated from");
        },
        TargetClaim::Exposes { target } => {
            out.push(destination("exposes", target.as_str(), "exposes"));
        },
        TargetClaim::Evidences { anchor } => {
            out.push(destination("evidences", anchor.as_str(), "evidences"));
        },
    }
    proof {
        assert(destinations_model(out@) =~= spec_claim_destinations(*claim));
    }
    out
}

// ---------------------------------------------------------------------------
// Anchor nodes

/// The anchored parts of an item, in order: principles, rules, criteria,
/// bindings, contracts; each with its anchor, kind and text.
pub open spec fn item_entities(i: ItemSummary) -> Seq<(Seq<char>, Seq<char>, Seq<char>)> {
    i.principles@.map_values(|p: crate::catalog::PrincipleSummary| (p.anchor@, "principle"@, p.statement@))
        + i.rules@.map_values(|r: crate::catalog::RuleSummary| (r.anchor@, "rule"@, r.statement@))
        + i.criteria@.map_values(|c: crate::catalog::CriterionSummary| (c.anchor@, "criterion"@, c.statement@))
        + i.bindings@.map_values(|b: crate::catalog::BindingSummary| (b.anchor@, "binding"@, b.responsibility@))
        + i.contracts@.map_values(|c: crate::catalog::ContractSummary| (c.anchor@, "contract"@, c.kind@))
}

/// Entity `e` of item `i` is the first part of the catalog with `anchor`.
pub open spec fn first_entity(items: Seq<ItemSummary>, anchor: Seq<char>, i: int, e: int) -> bool {
    &&& 0 <= i < items.len()
    &&& 0 <= e < item_entities(items[i]).len()
    &&& item_entities(items[i])[e].0 == anchor
    &&& forall|x: int, y: int|
        0 <= x < items.len() && 0 <= y < item_entities(items[x]).len() && (x < i || (x == i && y < e))
            ==> (#[trigger] item_entities(items[x])[y]).0 != anchor
}

/// A trace node as text: kind, label, secondary label, lane, source
/// target, item, metadata.
pub struct NodeSpecModel {
    pub kind: Seq<char>,
    pub label: Seq<char>,
    pub secondary_label: Option<Seq<char>>,
    pub lane: Seq<char>,
    pub source_target: Option<Seq<char>>,
    pub item_id: Option<Seq<char>>,
    pub metadata: Seq<(Seq<char>, Seq<char>)>,
}

pub open spec fn opt_view(o: Option<String>) -> Option<Seq<char>> {
    match o {
        Some(s) => Some(s@),
        None => None,
    }
}

pub open spec fn node_spec_model(s: TraceNodeSpec) -> NodeSpecModel {
    NodeSpecModel {
        kind: s.kind@,
        label: s.label@,
        secondary_label: opt_view(s.secondary_label),
        lane: s.lane@,
        source_target: opt_view(s.source_target),
        item_id: opt_view(s.item_id),
        metadata: s.metadata@.map_values(|m: TraceMetadataEntry| (m.key@, m.value@)),
    }
}

/// Principles and rules are governance; everything else specification.
pub open spec fn anchor_lane(kind: Seq<char>) -> Seq<char> {
    if kind == "principle"@ || kind == "rule"@ {
        "governance"@
    } else {
        "specification"@
    }
}

/// The node of an anchor the catalog does not hold: its kind is the part
/// of its local name before the first `.` (else `anchor`), its item the part
/// before the first `#`.
pub open spec fn unknown_anchor_node(anchor: Seq<char>) -> NodeSpecModel {
    let kind = if exists|h: int| first_occurrence(anchor, "#"@, h) {
        let h = choose|h: int| first_occurrence(anchor, "#"@, h);
        let local = anchor.skip(h + 1);
        if exists|d: int| first_occurrence(local, "."@, d) {
            local.take(choose|d: int| first_occurrence(local, "."@, d))
        } else {
            "anchor"@
        }
    } else {
        "anchor"@
    };
    let item = if exists|h: int| first_occurrence(anchor, "#"@, h) {
        Some(anchor.take(choose|h: int| first_occurrence(anchor, "#"@, h)))
    } else {
        None
    };
    NodeSpecModel {
        kind,
        label: anchor,
        secondary_label: None,
        lane: anchor_lane(kind),
        source_target: None,
        item_id: item,
        metadata: Seq::empty(),
    }
}

/// The node of `anchor`: from the first part of the catalog with that
/// anchor (its kind, its text as label, its item's title as secondary
/// label, the item's kind as metadata), else from the anchor's text.
pub open spec fn anchor_node(items: Seq<ItemSummary>, anchor: Seq<char>) -> NodeSpecModel {
    if exists|i: int, e: int| first_entity(items, anchor, i, e) {
        let (i, e) = choose|i: int, e: int| first_entity(items, anchor, i, e);
        let ent = item_entities(items[i])[e];
        NodeSpecModel {
            kind: ent.1,
            label: ent.2,
            secondary_label: Some(items[i].title@),
            lane: anchor_lane(ent.1),
            source_target: None,
            item_id: Some(items[i].id@),
            metadata: seq![("item_kind"@, items[i].kind@)],
        }
    } else {
        unknown_anchor_node(anchor)
    }
}

/// Whether entity `e` of `item` is the first with `anchor`, of `kind`
/// and with `text`.
pub open spec fn first_in_item(item: ItemSummary, anchor: Seq<char>, e: int, kind: Seq<char>, text: Seq<char>) -> bool {
    0 <= e < item_entities(item).len() && item_entities(item)[e] == (anchor, kind, text) && forall|y: int|
        0 <= y < e ==> (#[trigger] item_entities(item)[y]).0 != anchor
}

/// Whether the first part of `item` with `anchor` has `kind` and `text`.
pub open spec fn found_in_item(item: ItemSummary, anchor: Seq<char>, kind: Seq<char>, text: Seq<char>) -> bool {
    exists|e: int| first_in_item(item, anchor, e, kind, text)
}

/// The kind and text of an anchored part of an item.
struct AnchoredPart {
    kind: String,
    text: String,
}

/// The kind and text of the first part of `item` with `anchor`.
fn find_in_item(item: &ItemSummary, anchor: &str) -> (r: Option<AnchoredPart>)
    ensures
        r matches Some(p) ==> found_in_item(*item, anchor@, p.kind@, p.text@),
        r is None ==> forall|y: int|
            0 <= y < item_entities(*item).len() ==> (#[trigger] item_entities(*item)[y]).0 != anchor@,
{
    let ghost ents = item_entities(*item);
    let ghost np = item.principles@.len() as int;
    let ghost nr = item.rules@.len() as int;
    let ghost nc = item.criteria@.len() as int;
    let ghost nb = item.bindings@.len() as int;
    let ghost nk = item.contracts@.len() as int;
    proof {
        assert(ents.len() == np + nr + nc + nb + nk);
    }
    let mut k: usize = 0;
    while k < item.principles.len()
        invariant
            k <= item.principles.len(),
            ents == item_entities(*item),
            ents.len() == np + nr + nc + nb + nk,
            np == item.principles@.len(),
            nr == item.rules@.len(),
            nc == item.criteria@.len(),
            nb == item.bindings@.len(),
            nk == item.contracts@.len(),
            forall|y: int| 0 <= y < 0 + k ==> (#[trigger] ents[y]).0 != anchor@,
        decreases item.principles.len() - k,
    {
        proof {
            assert(ents[0 + k] == (item.principles@[k as int].anchor@, "principle"@, item.principles@[k as int].statement@));
        }
        if str_eq(item.principles[k].anchor.as_str(), anchor) {
            let kind = owned("principle");
            let text = item.principles[k].statement.clone();
            let part = AnchoredPart { kind, text };
            proof {
                assert(first_in_item(*item, anchor@, 0 + k, part.kind@, part.text@));
                assert(found_in_item(*item, anchor@, part.kind@, part.text@));
            }
            return Some(part);
        }
        k = k + 1;
    }
    let mut k: usize = 0;
    while k < item.rules.len()
        invariant
            k <= item.rules.len(),
            ents == item_entities(*item),
            ents.len() == np + nr + nc + nb + nk,
            np == item.principles@.len(),
            nr == item.rules@.len(),
            nc == item.criteria@.len(),
            nb == item.bindings@.len(),
            nk == item.contracts@.len(),
            forall|y: int| 0 <= y < np + k ==> (#[trigger] ents[y]).0 != anchor@,
        decreases item.rules.len() - k,
    {
        proof {
            assert(ents[np + k] == (item.rules@[k as int].anchor@, "rule"@, item.rules@[k as int].statement@));
        }
        if str_eq(item.rules[k].anchor.as_str(), anchor) {
            let kind = owned("rule");
            let text = item.rules[k].statement.clone();
            let part = AnchoredPart { kind, text };
            proof {
                assert(first_in_item(*item, anchor@, np + k, part.kind@, part.text@));
                assert(found_in_item(*item, anchor@, part.kind@, part.text@));
            }
            return Some(part);
        }
        k = k + 1;
    }
    let mut k: usize = 0;
    while k < item.criteria.len()
        invariant
            k <= item.criteria.len(),
            ents == item_entities(*item),
            ents.len() == np + nr + nc + nb + nk,
            np == item.principles@.len(),
            nr == item.rules@.len(),
            nc == item.criteria@.len(),
            nb == item.bindings@.len(),
            nk == item.contracts@.len(),
            forall|y: int| 0 <= y < np + nr + k ==> (#[trigger] ents[y]).0 != anchor@,
        decreases item.criteria.len() - k,
    {
        proof {
            assert(ents[np + nr + k] == (item.criteria@[k as int].anchor@, "criterion"@, item.criteria@[k as int].statement@));
        }
        if str_eq(item.criteria[k].anchor.as_str(), anchor) {
            let kind = owned("criterion");
            let text = item.criteria[k].statement.clone();
            let part = AnchoredPart { kind, text };
            proof {
                assert(first_in_item(*item, anchor@, np + nr + k, part.kind@, part.text@));
                assert(found_in_item(*item, anchor@, part.kind@, part.text@));
            }
            return Some(part);
        }
        k = k + 1;
    }
    let mut k: usize = 0;
    while k < item.bindings.len()
        invariant
            k <= item.bindings.len(),
            ents == item_entities(*item),
            ents.len() == np + nr + nc + nb + nk,
            np == item.principles@.len(),
            nr == item.rules@.len(),
            nc == item.criteria@.len(),
            nb == item.bindings@.len(),
            nk == item.contracts@.len(),
            forall|y: int| 0 <= y < np + nr + nc + k ==> (#[trigger] ents[y]).0 != anchor@,
        decreases item.bindings.len() - k,
    {
        proof {
            assert(ents[np + nr + nc + k] == (item.bindings@[k as int].anchor@, "binding"@, item.bindings@[k as int].responsibility@));
        }
        if str_eq(item.bindings[k].anchor.as_str(), anchor) {
            let kind = owned("binding");
            let text = item.bindings[k].responsibility.clone();
            let part = AnchoredPart { kind, text };
            proof {
                assert(first_in_item(*item, anchor@, np + nr + nc + k, part.kind@, part.text@));
                assert(found_in_item(*item, anchor@, part.kind@, part.text@));
            }
            return Some(part);
        }
        k = k + 1;
    }
    let mut k: usize = 0;
    while k < item.contracts.len()
        invariant
            k <= item.contracts.len(),
            ents == item_entities(*item),
            ents.len() == np + nr + nc + nb + nk,
            np == item.principles@.len(),
            nr == item.rules@.len(),
            nc == item.criteria@.len(),
            nb == item.bindings@.len(),
            nk == item.contracts@.len(),
            forall|y: int| 0 <= y < np + nr + nc + nb + k ==> (#[trigger] ents[y]).0 != anchor@,
        decreases item.contracts.len() - k,
    {
        proof {
            assert(ents[np + nr + nc + nb + k] == (item.contracts@[k as int].anchor@, "contract"@, item.contracts@[k as int].kind@));
        }
        if str_eq(item.contracts[k].anchor.as_str(), anchor) {
            let kind = owned("contract");
            let text = item.contracts[k].kind.clone();
            let part = AnchoredPart { kind, text };
            proof {
                assert(first_in_item(*item, anchor@, np + nr + nc + nb + k, part.kind@, part.text@));
                assert(found_in_item(*item, anchor@, part.kind@, part.text@));
            }
            return Some(part);
        }
        k = k + 1;
    }
    None
}

proof fn lemma_first_entity_unique(items: Seq<ItemSummary>, anchor: Seq<char>, i: int, e: int, i2: int, e2: int)
    requires
        first_entity(items, anchor, i, e),
        first_entity(items, anchor, i2, e2),
    ensures
        i == i2 && e == e2,
{
    if i < i2 || (i == i2 && e < e2) {
        assert(item_entities(items[i])[e].0 == anchor);
    } else if i2 < i || (i == i2 && e2 < e) {
        assert(item_entities(items[i2])[e2].0 == anchor);
    }
}

fn lane_of(kind: &str) -> (r: String)
    ensures
        r@ == anchor_lane(kind@),
{
    if str_eq(kind, "principle") || str_eq(kind, "rule") {
        owned("governance")
    } else {
        owned("specification")
    }
}

/// The node of an anchor the catalog does not hold.
fn unknown_anchor_spec(anchor: &str) -> (r: TraceNodeSpec)
    ensures
        node_spec_model(r) == unknown_anchor_node(anchor@),
{
    let cs = chars_of(anchor);
    let hash = chars_of("#");
    let dot = chars_of(".");
    proof {
        reveal_strlit("#");
        reveal_strlit(".");
    }
    let mut kind = owned("anchor");
    let mut item: Option<String> = None;
    match crate::text::find_first(&cs, &hash) {
        Some(h) => {
            proof {
                let c = choose|c: int| first_occurrence(anchor@, "#"@, c);
                if c < h {
                    assert(crate::text::occurs_at(anchor@, "#"@, c));
                } else if c > h {
                    assert(crate::text::occurs_at(anchor@, "#"@, h as int));
                }
            }
            proof {
                assert(crate::text::occurs_at(anchor@, "#"@, h as int));
                assert(h + 1 <= cs@.len());
                assert(cs@.len() == cs.len());
            }
            item = Some(string_of(&crate::text::slice_of(&cs, 0, h)));
            let local = crate::text::suffix_from(&cs, h + 1);
            proof {
                assert(local@ == anchor@.skip(h + 1));
            }
            match crate::text::find_first(&local, &dot) {
                Some(d) => {
                    proof {
                        let c = choose|c: int| first_occurrence(local@, "."@, c);
                        if c < d {
                            assert(crate::text::occurs_at(local@, "."@, c));
                        } else if c > d {
                            assert(crate::text::occurs_at(local@, "."@, d as int));
                        }
                    }
                    proof {
                        assert(crate::text::occurs_at(local@, "."@, d as int));
                    }
                    kind = string_of(&crate::text::slice_of(&local, 0, d));
                    proof {
                        assert(kind@ == local@.take(d as int));
                    }
                },
                None => {
                    proof {
                        assert(!exists|c: int| first_occurrence(local@, "."@, c));
                    }
                },
            }
            proof {
                assert(anchor@.take(h as int) =~= anchor@.subrange(0, h as int));
            }
        },
        None => {
            proof {
                assert(!exists|c: int| first_occurrence(anchor@, "#"@, c));
            }
        },
    }
    let lane = lane_of(kind.as_str());
    let r = TraceNodeSpec {
        kind,
        label: owned(anchor),
        secondary_label: None,
        lane,
        source_target: None,
        item_id: item,
        metadata: Vec::new(),
    };
    proof {
        assert(node_spec_model(r).metadata =~= Seq::empty());
        assert(node_spec_model(r) == unknown_anchor_node(anchor@));
    }
    r
}

/// What the node of `anchor` is made of.
pub fn anchor_node_spec(items: &Vec<ItemSummary>, anchor: &str) -> (r: TraceNodeSpec)
    ensures
        node_spec_model(r) == anchor_node(items@, anchor@),
{
    let mut i: usize = 0;
    while i < items.len()
        invariant
            i <= items.len(),
            forall|x: int, y: int|
                0 <= x < i && 0 <= y < item_entities(items@[x]).len() ==> (#[trigger] item_entities(items@[x])[y]).0
                    != anchor@,
        decreases items.len() - i,
    {
        if let Some(part) = find_in_item(&items[i], anchor) {
            let item = &items[i];
            let lane = lane_of(part.kind.as_str());
            let mut metadata: Vec<TraceMetadataEntry> = Vec::new();
            metadata.push(TraceMetadataEntry { key: owned("item_kind"), value: item.kind.clone() });
            let ghost kind = part.kind@;
            let ghost text = part.text@;
            let r = TraceNodeSpec {
                kind: part.kind,
                label: part.text,
                secondary_label: Some(item.title.clone()),
                lane,
                source_target: None,
                item_id: Some(item.id.clone()),
                metadata,
            };
            proof {
                let e = choose|e: int| first_in_item(items@[i as int], anchor@, e, kind, text);
                assert(first_entity(items@, anchor@, i as int, e));
                let (i2, e2) = choose|i2: int, e2: int| first_entity(items@, anchor@, i2, e2);
                lemma_first_entity_unique(items@, anchor@, i as int, e, i2, e2);
                assert(node_spec_model(r).metadata =~= seq![("item_kind"@, items@[i as int].kind@)]);
                reveal_strlit("item_kind");
            }
            return r;
        }
        i = i + 1;
    }
    proof {
        assert forall|i2: int, e2: int| !first_entity(items@, anchor@, i2, e2) by {
            if first_entity(items@, anchor@, i2, e2) {
                assert(item_entities(items@[i2])[e2].0 == anchor@);
            }
        }
    }
    unknown_anchor_spec(anchor)
}

/// A trace node as text, apart from its identity and place.
pub open spec fn node_model(n: TraceNodeView) -> NodeSpecModel {
    NodeSpecModel {
        kind: n.kind@,
        label: n.label@,
        secondary_label: opt_view(n.secondary_label),
        lane: n.lane@,
        source_target: opt_view(n.source_target),
        item_id: opt_view(n.item_id),
        metadata: n.metadata@.map_values(|m: TraceMetadataEntry| (m.key@, m.value@)),
    }
}

/// Adds the node of `anchor` unless the graph has it.
pub fn add_anchor_trace_node(nodes: &mut TraceNodes, items: &Vec<ItemSummary>, anchor: &str)
    ensures
        (exists|k: int| 0 <= k < old(nodes)@.len() && old(nodes)@[k].id@ == anchor@) ==> final(nodes)@
            == old(nodes)@,
        (forall|k: int| 0 <= k < old(nodes)@.len() ==> old(nodes)@[k].id@ != anchor@) ==> exists|
            p: int,
            n: TraceNodeView,
        |
            0 <= p <= old(nodes)@.len() && n.id@ == anchor@ && n.stable_order == 0 && node_model(n) == anchor_node(
                items@,
                anchor@,
            ) && final(nodes)@ == old(nodes)@.insert(p, n),
{
    let spec = anchor_node_spec(items, anchor);
    let id = owned(anchor);
    trace_node(nodes, id, spec);
}

/// The node of a binding target: evidence when the binding verifies or a
/// claim verifies or evidences, implementation otherwise; labelled by its
/// selector, with its path as secondary label, and its binding's and
/// target's facts as metadata in key order.
pub open spec fn target_node(
    root_id: Seq<char>,
    b: BindingSummary,
    t: BindingTargetSummary,
    selector: Selector,
    lifecycle_json: Seq<char>,
    selector_json: Seq<char>,
) -> NodeSpecModel {
    let evidence = crate::related::is_verification(b, t);
    NodeSpecModel {
        kind: if evidence { "verification-target"@ } else { "implementation-target"@ },
        label: spec_selector_label(selector),
        secondary_label: Some(t.path@),
        lane: if evidence { "evidence"@ } else { "implementation"@ },
        source_target: Some(t.reference@),
        item_id: Some(root_id),
        metadata: seq![
            ("adapter"@, t.adapter@),
            ("facet"@, b.facet@),
            ("lifecycle"@, lifecycle_json),
            ("path"@, t.path@),
            ("responsibility"@, b.responsibility@),
            ("role"@, b.role@),
            ("selector"@, selector_json),
        ],
    }
}

fn entry(key: &str, value: &str) -> (r: TraceMetadataEntry)
    ensures
        r.key@ == key@ && r.value@ == value@,
{
    TraceMetadataEntry { key: owned(key), value: owned(value) }
}

/// What the node of binding target `target` is made of; `lifecycle_json`
/// and `selector_json` are the target's lifecycle and selector in their
/// JSON form.
pub fn target_node_spec(
    root: &ItemSummary,
    binding: &BindingSummary,
    target: &BindingTargetSummary,
    selector: &Selector,
    lifecycle_json: &str,
    selector_json: &str,
) -> (r: TraceNodeSpec)
    ensures
        node_spec_model(r) == target_node(root.id@, *binding, *target, *selector, lifecycle_json@, selector_json@),
{
    let mut evidence = str_eq(binding.role.as_str(), "verification");
    let mut k: usize = 0;
    while k < target.claims.len()
        invariant
            k <= target.claims.len(),
            evidence == (binding.role@ == "verification"@ || exists|j: int|
                0 <= j < k && (crate::closures::claim_view(#[trigger] target.claims@[j]).0 == 1
                    || crate::closures::claim_view(target.claims@[j]).0 == 6)),
        decreases target.claims.len() - k,
    {
        match &target.claims[k] {
            TargetClaim::Verifies { .. } | TargetClaim::Evidences { .. } => {
                evidence = true;
            },
            _ => {},
        }
        k = k + 1;
    }
    let mut metadata: Vec<TraceMetadataEntry> = Vec::new();
    metadata.push(entry("adapter", target.adapter.as_str()));
    metadata.push(entry("facet", binding.facet.as_str()));
    metadata.push(entry("lifecycle", lifecycle_json));
    metadata.push(entry("path", target.path.as_str()));
    metadata.push(entry("responsibility", binding.responsibility.as_str()));
    metadata.push(entry("role", binding.role.as_str()));
    metadata.push(entry("selector", selector_json));
    let r = TraceNodeSpec {
        kind: owned(if evidence { "verification-target" } else { "implementation-target" }),
        label: selector_label(selector),
        secondary_label: Some(target.path.clone()),
        lane: owned(if evidence { "evidence" } else { "implementation" }),
        source_target: Some(target.reference.clone()),
        item_id: Some(root.id.clone()),
        metadata,
    };
    proof {
        assert(node_spec_model(r).metadata =~= target_node(
            root.id@,
            *binding,
            *target,
            *selector,
            lifecycle_json@,
            selector_json@,
        ).metadata);
    }
    r
}

// ---------------------------------------------------------------------------
// Numbering the shown nodes

/// `n` is the node `m` numbered `order`.
pub open spec fn numbered(n: TraceNodeView, m: TraceNodeView, order: nat) -> bool {
    &&& n.id@ == m.id@
    &&& node_model(n) == node_model(m)
    &&& n.stable_order == order
}

fn copy_optional(o: &Option<String>) -> (r: Option<String>)
    ensures
        opt_view(r) == opt_view(*o),
{
    match o {
        Some(s) => Some(owned(s.as_str())),
        None => None,
    }
}

fn numbered_copy(m: &TraceNodeView, order: usize) -> (r: TraceNodeView)
    ensures
        numbered(r, *m, order as nat),
{
    let mut metadata: Vec<TraceMetadataEntry> = Vec::new();
    let mut k: usize = 0;
    while k < m.metadata.len()
        invariant
            k <= m.metadata.len(),
            metadata@.len() == k,
            forall|j: int|
                0 <= j < k ==> #[trigger] metadata@[j].key@ == m.metadata@[j].key@ && metadata@[j].value@
                    == m.metadata@[j].value@,
        decreases m.metadata.len() - k,
    {
        metadata.push(
            TraceMetadataEntry {
                key: owned(m.metadata[k].key.as_str()),
                value: owned(m.metadata[k].value.as_str()),
            },
        );
        k = k + 1;
    }
    let r = TraceNodeView {
        id: owned(m.id.as_str()),
        kind: owned(m.kind.as_str()),
        label: owned(m.label.as_str()),
        secondary_label: copy_optional(&m.secondary_label),
        lane: owned(m.lane.as_str()),
        stable_order: order,
        source_target: copy_optional(&m.source_target),
        item_id: copy_optional(&m.item_id),
        metadata,
    };
    assert(r.metadata@.map_values(|e: TraceMetadataEntry| (e.key@, e.value@)) =~= m.metadata@.map_values(
        |e: TraceMetadataEntry| (e.key@, e.value@),
    ));
    r
}

/// `n` is a node of `nodes` numbered `order`.
pub open spec fn numbered_from(n: TraceNodeView, nodes: Seq<TraceNodeView>, order: nat) -> bool {
    exists|j: int| 0 <= j < nodes.len() && #[trigger] numbered(n, nodes[j], order)
}

/// The nodes named by `ids`, in that order, each numbered by its place
/// (its stable order); every id names a node of the graph.
pub fn numbered_nodes(nodes: &TraceNodes, ids: &Vec<String>) -> (r: Vec<TraceNodeView>)
    requires
        forall|k: int| 0 <= k < ids@.len() ==> crate::trace_view::is_node(nodes@, (#[trigger] ids@[k])@),
    ensures
        r@.len() == ids@.len(),
        forall|k: int| 0 <= k < r@.len() ==> #[trigger] r@[k].id@ == ids@[k]@,
        forall|k: int| 0 <= k < r@.len() ==> numbered_from(#[trigger] r@[k], nodes@, k as nat),
{
    let ns = nodes.entries();
    let mut r: Vec<TraceNodeView> = Vec::new();
    let mut k: usize = 0;
    while k < ids.len()
        invariant
            k <= ids.len(),
            ns@ == nodes@,
            r@.len() == k,
            forall|k: int| 0 <= k < ids@.len() ==> crate::trace_view::is_node(nodes@, (#[trigger] ids@[k])@),
            forall|q: int| 0 <= q < k ==> #[trigger] r@[q].id@ == ids@[q]@,
            forall|q: int| 0 <= q < k ==> numbered_from(#[trigger] r@[q], nodes@, q as nat),
        decreases ids.len() - k,
    {
        let id = ids[k].as_str();
        assert(crate::trace_view::is_node(nodes@, ids@[k as int]@));
        let mut j: usize = 0;
        while j < ns.len() && !str_eq(ns[j].id.as_str(), id)
            invariant
                j <= ns.len(),
                ns@ == nodes@,
                crate::trace_view::is_node(nodes@, id@),
                forall|i: int| 0 <= i < j ==> (#[trigger] ns@[i]).id@ != id@,
            decreases ns.len() - j,
        {
            j = j + 1;
        }
        if j >= ns.len() {
            proof {
                let w = choose|w: int| 0 <= w < nodes@.len() && nodes@[w].id@ == id@;
                assert(ns@[w].id@ != id@);
            }
        }
        let node = numbered_copy(&ns[j], k);
        proof {
            assert(numbered(node, nodes@[j as int], k as nat));
            assert(numbered_from(node, nodes@, k as nat));
        }
        r.push(node);
        k = k + 1;
    }
    r
}

} // verus!
