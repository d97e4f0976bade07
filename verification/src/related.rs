//! The specifications and targets related to a root item in the trace
//! view: the targets whose claims reach the root's closure criteria, split
//! into implementation and verification, and the budget that bounds them.
use vstd::prelude::*;
use crate::catalog::{BindingSummary, BindingTargetSummary, ItemSummary, TargetClaim};
use crate::closures::claim_view;
use crate::sorted::SortedStrings;
use crate::text::{compare_chars, chars_of, seq_lt, str_eq};

verus! {

/// A target related to the root, with the claims the budget shows.
pub struct TraceRelatedTargetView {
    pub item_id: String,
    pub target: BindingTargetSummary,
    pub hidden_claim_count: usize,
}

/// A specification related to the root.
pub struct TraceRelatedSpecificationView {
    pub item_id: String,
    pub kind: String,
    pub title: String,
    pub presentation_title_key: Option<String>,
}

/// What the trace view shows related to the root.
pub struct TraceRelatedView {
    pub specification: Vec<TraceRelatedSpecificationView>,
    pub implementation: Vec<TraceRelatedTargetView>,
    pub verification: Vec<TraceRelatedTargetView>,
    pub hidden_count: usize,
    pub hidden_claim_count: usize,
}

/// The positions (item, binding, target) of every target of the catalog,
/// in order.
pub open spec fn binding_positions(items: Seq<ItemSummary>, i: int, j: int) -> Seq<(int, int, int)> {
    Seq::new(items[i].bindings@[j].targets@.len(), |k: int| (i, j, k))
}

pub open spec fn item_positions(items: Seq<ItemSummary>, i: int) -> Seq<(int, int, int)> {
    Seq::new(items[i].bindings@.len(), |j: int| binding_positions(items, i, j)).flatten()
}

pub open spec fn target_positions(items: Seq<ItemSummary>) -> Seq<(int, int, int)> {
    Seq::new(items.len(), |i: int| item_positions(items, i)).flatten()
}

/// The target at a position, with its item and binding.
pub open spec fn target_at(items: Seq<ItemSummary>, p: (int, int, int)) -> (ItemSummary, BindingSummary, BindingTargetSummary) {
    (items[p.0], items[p.0].bindings@[p.1], items[p.0].bindings@[p.1].targets@[p.2])
}

/// Every target of the catalog with its item and binding, in order.
pub open spec fn catalog_targets(items: Seq<ItemSummary>) -> Seq<(ItemSummary, BindingSummary, BindingTargetSummary)> {
    target_positions(items).map_values(|p: (int, int, int)| target_at(items, p))
}

/// Whether a target counts as verification: its binding's role is
/// verification, or one of its claims verifies or evidences.
pub open spec fn is_verification(b: BindingSummary, t: BindingTargetSummary) -> bool {
    b.role@ == "verification"@ || exists|k: int|
        0 <= k < t.claims@.len() && (claim_view(#[trigger] t.claims@[k]).0 == 1 || claim_view(t.claims@[k]).0 == 6)
}

/// Whether a target's claims reach one of the root's criteria: it
/// satisfies or verifies one, or evidences one.
pub open spec fn reaches_root(t: BindingTargetSummary, root_criteria: Set<Seq<char>>) -> bool {
    exists|k: int|
        0 <= k < t.claims@.len() && {
            let v = claim_view(#[trigger] t.claims@[k]);
            (v.0 == 0 || v.0 == 1 || v.0 == 6) && root_criteria.contains(v.1)
        }
}

pub struct TargetModel {
    pub reference: Seq<char>,
    pub path: Seq<char>,
    pub selector: Seq<char>,
    pub adapter: Seq<char>,
    pub lifecycle: Seq<char>,
    pub claims: Seq<(nat, Seq<char>, Seq<Seq<char>>)>,
}

pub struct RelatedModel {
    pub item_id: Seq<char>,
    pub target: TargetModel,
    pub hidden_claims: nat,
}

pub open spec fn target_model(t: BindingTargetSummary) -> TargetModel {
    TargetModel {
        reference: t.reference@,
        path: t.path@,
        selector: t.selector@,
        adapter: t.adapter@,
        lifecycle: t.lifecycle@,
        claims: t.claims@.map_values(|c: TargetClaim| claim_view(c)),
    }
}

pub open spec fn related_model(v: TraceRelatedTargetView) -> RelatedModel {
    RelatedModel { item_id: v.item_id@, target: target_model(v.target), hidden_claims: v.hidden_claim_count as nat }
}

pub open spec fn related_models(v: Seq<TraceRelatedTargetView>) -> Seq<RelatedModel> {
    v.map_values(|x: TraceRelatedTargetView| related_model(x))
}

/// How many claims of `t` the budget shows.
pub open spec fn shown_claims(t: BindingTargetSummary, budget: nat) -> int {
    if t.claims@.len() < budget {
        t.claims@.len() as int
    } else {
        budget as int
    }
}

/// Target `t` with only the claims the budget shows.
pub open spec fn shown_target(t: BindingTargetSummary, budget: nat) -> TargetModel {
    let m = target_model(t);
    TargetModel { claims: m.claims.take(shown_claims(t, budget)), ..m }
}

/// The related entry of target `t` of item `i`: its claims beyond `budget`
/// hidden and counted.
pub open spec fn entry_of(i: ItemSummary, t: BindingTargetSummary, budget: nat) -> RelatedModel {
    RelatedModel {
        item_id: i.id@,
        target: shown_target(t, budget),
        hidden_claims: (t.claims@.len() - shown_claims(t, budget)) as nat,
    }
}

/// Where a stable insertion by reference puts `e` into `s`: after every
/// entry whose reference is not greater.
pub open spec fn insert_position(s: Seq<RelatedModel>, e: RelatedModel) -> int
    decreases s.len(),
{
    if s.len() == 0 {
        0
    } else if seq_lt(e.target.reference, s.last().target.reference) {
        insert_position(s.drop_last(), e)
    } else {
        s.len() as int
    }
}

proof fn lemma_position_bounds(s: Seq<RelatedModel>, e: RelatedModel)
    ensures
        0 <= insert_position(s, e) <= s.len(),
    decreases s.len(),
{
    if s.len() > 0 {
        lemma_position_bounds(s.drop_last(), e);
    }
}

/// The related entries of one kind among `ts`, in reference order; entries
/// with the same reference keep their catalog order.
pub open spec fn related_entries(
    ts: Seq<(ItemSummary, BindingSummary, BindingTargetSummary)>,
    root_criteria: Set<Seq<char>>,
    budget: nat,
    verification: bool,
) -> Seq<RelatedModel>
    decreases ts.len(),
{
    if ts.len() == 0 {
        Seq::empty()
    } else {
        let r = related_entries(ts.drop_last(), root_criteria, budget, verification);
        let (i, b, t) = ts.last();
        if reaches_root(t, root_criteria) && is_verification(b, t) == verification {
            let e = entry_of(i, t, budget);
            r.insert(insert_position(r, e), e)
        } else {
            r
        }
    }
}

fn copy_target(t: &BindingTargetSummary, budget: usize) -> (r: (BindingTargetSummary, usize))
    ensures
        target_model(r.0) == shown_target(*t, budget as nat),
        r.1 == t.claims@.len() - shown_claims(*t, budget as nat),
{
    let shown = if t.claims.len() < budget {
        t.claims.len()
    } else {
        budget
    };
    let mut claims: Vec<TargetClaim> = Vec::new();
    let mut k: usize = 0;
    while k < shown
        invariant
            k <= shown <= t.claims.len(),
            claims@.map_values(|c: TargetClaim| claim_view(c)) == t.claims@.map_values(|c: TargetClaim| claim_view(c)).take(k as int),
        decreases shown - k,
    {
        let ghost before = claims@;
        claims.push(crate::closures::copy_claim(&t.claims[k]));
        proof {
            let f = |c: TargetClaim| claim_view(c);
            assert(claims@.map_values(f) =~= before.map_values(f).push(claim_view(t.claims@[k as int])));
            assert(t.claims@.map_values(f).take(k + 1) =~= t.claims@.map_values(f).take(k as int).push(claim_view(t.claims@[k as int])));
        }
        k = k + 1;
    }
    let copy = BindingTargetSummary {
        reference: t.reference.clone(),
        path: t.path.clone(),
        selector: t.selector.clone(),
        adapter: t.adapter.clone(),
        lifecycle: t.lifecycle.clone(),
        claims,
    };
    proof {
        assert(target_model(copy) =~= shown_target(*t, budget as nat));
    }
    (copy, t.claims.len() - shown)
}

/// Inserts `e` where a stable insertion by reference puts it.
fn insert_related(out: &mut Vec<TraceRelatedTargetView>, e: TraceRelatedTargetView)
    ensures
        related_models(final(out)@) == related_models(old(out)@).insert(
            insert_position(related_models(old(out)@), related_model(e)),
            related_model(e),
        ),
{
    let ghost sv = related_models(out@);
    let ghost em = related_model(e);
    let key = chars_of(e.target.reference.as_str());
    let mut p: usize = out.len();
    assert(sv.take(p as int) =~= sv);
    while p > 0
        invariant
            p <= out.len(),
            sv == related_models(out@),
            sv.len() == out@.len(),
            em == related_model(e),
            key@ == em.target.reference,
            insert_position(sv, em) == insert_position(sv.take(p as int), em),
        ensures
            p <= out.len(),
            insert_position(sv, em) == p,
        decreases p,
    {
        proof {
            assert(sv[p - 1] == related_model(out@[p - 1]));
            assert(sv.take(p as int).last() == sv[p - 1]);
            assert(sv.take(p as int).drop_last() =~= sv.take(p - 1));
        }
        let other = chars_of(out[p - 1].target.reference.as_str());
        if compare_chars(&key, &other) >= 0 {
            assert(insert_position(sv.take(p as int), em) == p);
            break;
        }
        p = p - 1;
    }
    let ghost before = out@;
    out.insert(p, e);
    proof {
        assert(out@ == before.insert(p as int, e));
        assert(related_models(out@) =~= sv.insert(p as int, em));
    }
}

// ---------------------------------------------------------------------------
// Related specifications

pub open spec fn spec_model(v: TraceRelatedSpecificationView) -> (Seq<char>, Seq<char>, Seq<char>, Option<Seq<char>>) {
    (v.item_id@, v.kind@, v.title@, match v.presentation_title_key {
        Some(k) => Some(k@),
        None => None,
    })
}

pub open spec fn spec_models(v: Seq<TraceRelatedSpecificationView>) -> Seq<(Seq<char>, Seq<char>, Seq<char>, Option<Seq<char>>)> {
    v.map_values(|x: TraceRelatedSpecificationView| spec_model(x))
}

/// The order of optional text: none first, then by the text.
pub open spec fn opt_lt(a: Option<Seq<char>>, b: Option<Seq<char>>) -> bool {
    match (a, b) {
        (None, Some(_)) => true,
        (Some(x), Some(y)) => seq_lt(x, y),
        _ => false,
    }
}

/// The order of related specifications: by item, kind, title and title key.
pub open spec fn spec_lt(
    a: (Seq<char>, Seq<char>, Seq<char>, Option<Seq<char>>),
    b: (Seq<char>, Seq<char>, Seq<char>, Option<Seq<char>>),
) -> bool {
    seq_lt(a.0, b.0) || (a.0 == b.0 && (seq_lt(a.1, b.1) || (a.1 == b.1 && (seq_lt(a.2, b.2) || (a.2 == b.2
        && opt_lt(a.3, b.3))))))
}

proof fn lemma_opt_total(a: Option<Seq<char>>, b: Option<Seq<char>>)
    ensures
        a == b || opt_lt(a, b) || opt_lt(b, a),
        !(opt_lt(a, b) && opt_lt(b, a)),
        !opt_lt(a, a),
{
    match (a, b) {
        (Some(x), Some(y)) => {
            crate::text::lemma_lt_total(x, y);
            crate::text::lemma_lt_irreflexive(x);
        },
        (Some(x), None) => {
            crate::text::lemma_lt_irreflexive(x);
        },
        _ => {},
    }
}

proof fn lemma_opt_transitive(a: Option<Seq<char>>, b: Option<Seq<char>>, c: Option<Seq<char>>)
    requires
        opt_lt(a, b),
        opt_lt(b, c),
    ensures
        opt_lt(a, c),
{
    match (a, b, c) {
        (Some(x), Some(y), Some(z)) => crate::text::lemma_lt_transitive(x, y, z),
        _ => {},
    }
}

proof fn lemma_spec_total(
    a: (Seq<char>, Seq<char>, Seq<char>, Option<Seq<char>>),
    b: (Seq<char>, Seq<char>, Seq<char>, Option<Seq<char>>),
)
    ensures
        a == b || spec_lt(a, b) || spec_lt(b, a),
        !(spec_lt(a, b) && spec_lt(b, a)),
        !spec_lt(a, a),
{
    crate::text::lemma_lt_total(a.0, b.0);
    crate::text::lemma_lt_total(a.1, b.1);
    crate::text::lemma_lt_total(a.2, b.2);
    crate::text::lemma_lt_irreflexive(a.0);
    crate::text::lemma_lt_irreflexive(a.1);
    crate::text::lemma_lt_irreflexive(a.2);
    lemma_opt_total(a.3, b.3);
    lemma_opt_total(a.3, a.3);
}

proof fn lemma_spec_transitive(
    a: (Seq<char>, Seq<char>, Seq<char>, Option<Seq<char>>),
    b: (Seq<char>, Seq<char>, Seq<char>, Option<Seq<char>>),
    c: (Seq<char>, Seq<char>, Seq<char>, Option<Seq<char>>),
)
    requires
        spec_lt(a, b),
        spec_lt(b, c),
    ensures
        spec_lt(a, c),
{
    if seq_lt(a.0, b.0) && seq_lt(b.0, c.0) {
        crate::text::lemma_lt_transitive(a.0, b.0, c.0);
    } else if a.0 == b.0 && b.0 == c.0 {
        if seq_lt(a.1, b.1) && seq_lt(b.1, c.1) {
            crate::text::lemma_lt_transitive(a.1, b.1, c.1);
        } else if a.1 == b.1 && b.1 == c.1 {
            if seq_lt(a.2, b.2) && seq_lt(b.2, c.2) {
                crate::text::lemma_lt_transitive(a.2, b.2, c.2);
            } else if a.2 == b.2 && b.2 == c.2 {
                lemma_opt_transitive(a.3, b.3, c.3);
            }
        }
    }
}

pub open spec fn specs_sorted(s: Seq<(Seq<char>, Seq<char>, Seq<char>, Option<Seq<char>>)>) -> bool {
    forall|i: int, j: int| 0 <= i < j < s.len() ==> spec_lt(s[i], s[j])
}

fn opt_compare(a: &Option<String>, b: &Option<String>) -> (r: i8)
    ensures
        (r < 0) == opt_lt(spec_model_opt(*a), spec_model_opt(*b)),
        (r == 0) == (spec_model_opt(*a) == spec_model_opt(*b)),
{
    proof {
        lemma_opt_total(spec_model_opt(*a), spec_model_opt(*b));
    }
    match (a, b) {
        (None, None) => 0,
        (None, Some(_)) => -1,
        (Some(_), None) => 1,
        (Some(x), Some(y)) => compare_chars(&chars_of(x.as_str()), &chars_of(y.as_str())),
    }
}

pub open spec fn spec_model_opt(o: Option<String>) -> Option<Seq<char>> {
    match o {
        Some(k) => Some(k@),
        None => None,
    }
}

/// Compares two related specifications in their order.
fn spec_compare(a: &TraceRelatedSpecificationView, b: &TraceRelatedSpecificationView) -> (r: i8)
    ensures
        (r < 0) == spec_lt(spec_model(*a), spec_model(*b)),
        (r == 0) == (spec_model(*a) == spec_model(*b)),
{
    proof {
        lemma_spec_total(spec_model(*a), spec_model(*b));
    }
    let c = compare_chars(&chars_of(a.item_id.as_str()), &chars_of(b.item_id.as_str()));
    if c != 0 {
        return c;
    }
    let c = compare_chars(&chars_of(a.kind.as_str()), &chars_of(b.kind.as_str()));
    if c != 0 {
        return c;
    }
    let c = compare_chars(&chars_of(a.title.as_str()), &chars_of(b.title.as_str()));
    if c != 0 {
        return c;
    }
    opt_compare(&a.presentation_title_key, &b.presentation_title_key)
}

/// Adds `x` to the ordered set `out` of related specifications.
fn insert_spec(out: &mut Vec<TraceRelatedSpecificationView>, x: TraceRelatedSpecificationView)
    requires
        specs_sorted(spec_models(old(out)@)),
    ensures
        specs_sorted(spec_models(final(out)@)),
        spec_models(final(out)@).to_set() == spec_models(old(out)@).to_set().insert(spec_model(x)),
        final(out)@.len() <= old(out)@.len() + 1,
{
    let ghost ov = spec_models(out@);
    let ghost xm = spec_model(x);
    let mut p: usize = 0;
    while p < out.len()
        invariant
            p <= out.len(),
            ov == spec_models(out@),
            ov.len() == out@.len(),
            specs_sorted(ov),
            xm == spec_model(x),
            forall|k: int| 0 <= k < p ==> spec_lt(ov[k], xm),
        ensures
            p <= out.len(),
            ov == spec_models(out@),
            forall|k: int| 0 <= k < p ==> spec_lt(ov[k], xm),
            p < out.len() ==> !spec_lt(ov[p as int], xm),
        decreases out.len() - p,
    {
        proof {
            assert(ov[p as int] == spec_model(out@[p as int]));
        }
        if spec_compare(&out[p], &x) >= 0 {
            break;
        }
        p = p + 1;
    }
    if p < out.len() {
        proof {
            assert(ov[p as int] == spec_model(out@[p as int]));
        }
        if spec_compare(&out[p], &x) == 0 {
            proof {
                assert(ov.to_set().insert(xm) =~= ov.to_set());
            }
            return;
        }
    }
    proof {
        assert forall|k: int| p <= k < ov.len() implies spec_lt(xm, ov[k]) by {
            lemma_spec_total(ov[p as int], xm);
            if k > p {
                lemma_spec_transitive(xm, ov[p as int], ov[k]);
            }
        }
    }
    let ghost before = out@;
    out.insert(p, x);
    proof {
        let nv = spec_models(out@);
        assert(nv =~= ov.insert(p as int, xm));
        assert forall|i: int, j: int| 0 <= i < j < nv.len() implies spec_lt(nv[i], nv[j]) by {
            if j < p {
                assert(nv[i] == ov[i] && nv[j] == ov[j]);
            } else if j == p {
                assert(nv[i] == ov[i]);
            } else if i == p {
                assert(nv[j] == ov[j - 1]);
            } else if i < p {
                assert(nv[i] == ov[i] && nv[j] == ov[j - 1]);
                lemma_spec_transitive(ov[i], xm, ov[j - 1]);
            } else {
                assert(nv[i] == ov[i - 1] && nv[j] == ov[j - 1]);
            }
        }
        assert forall|y| nv.to_set().contains(y) == ov.to_set().insert(xm).contains(y) by {
            if nv.contains(y) {
                let q = choose|q: int| 0 <= q < nv.len() && nv[q] == y;
                if q < p {
                    assert(ov[q] == y);
                } else if q > p {
                    assert(ov[q - 1] == y);
                }
            }
            if ov.contains(y) {
                let q = choose|q: int| 0 <= q < ov.len() && ov[q] == y;
                if q < p {
                    assert(nv[q] == y);
                } else {
                    assert(nv[q + 1] == y);
                }
            }
            if y == xm {
                assert(nv[p as int] == y);
            }
        }
        assert(nv.to_set() =~= ov.to_set().insert(xm));
    }
}

// ---------------------------------------------------------------------------
// Positions

pub open spec fn position_valid(items: Seq<ItemSummary>, p: (usize, usize, usize)) -> bool {
    p.0 < items.len() && p.1 < items[p.0 as int].bindings@.len() && p.2 < items[p.0 as int].bindings@[p.1 as int].targets@.len()
}

fn positions_of(items: &Vec<ItemSummary>) -> (r: Vec<(usize, usize, usize)>)
    ensures
        r@.map_values(|p: (usize, usize, usize)| (p.0 as int, p.1 as int, p.2 as int)) == target_positions(items@),
        forall|q: int| 0 <= q < r@.len() ==> position_valid(items@, #[trigger] r@[q]),
{
    let ghost f = |p: (usize, usize, usize)| (p.0 as int, p.1 as int, p.2 as int);
    let ghost outer = Seq::new(items@.len(), |i: int| item_positions(items@, i));
    let mut out: Vec<(usize, usize, usize)> = Vec::new();
    let mut i: usize = 0;
    proof {
        assert(outer.take(0).flatten() =~= Seq::empty());
        assert(out@.map_values(f) =~= Seq::empty());
    }
    while i < items.len()
        invariant
            i <= items.len(),
            f == (|p: (usize, usize, usize)| (p.0 as int, p.1 as int, p.2 as int)),
            outer == Seq::new(items@.len(), |i: int| item_positions(items@, i)),
            out@.map_values(f) == outer.take(i as int).flatten(),
            forall|q: int| 0 <= q < out@.len() ==> position_valid(items@, #[trigger] out@[q]),
        decreases items.len() - i,
    {
        let ghost start = out@.map_values(f);
        let ghost middle = Seq::new(items@[i as int].bindings@.len(), |j: int| binding_positions(items@, i as int, j));
        let bs = &items[i].bindings;
        let mut j: usize = 0;
        proof {
            assert(middle.take(0).flatten() =~= Seq::empty());
            assert(out@.map_values(f) =~= start + middle.take(0).flatten());
        }
        while j < bs.len()
            invariant
                j <= bs.len(),
                i < items.len(),
                bs@ == items@[i as int].bindings@,
                f == (|p: (usize, usize, usize)| (p.0 as int, p.1 as int, p.2 as int)),
                middle == Seq::new(items@[i as int].bindings@.len(), |j: int| binding_positions(items@, i as int, j)),
                out@.map_values(f) == start + middle.take(j as int).flatten(),
                forall|q: int| 0 <= q < out@.len() ==> position_valid(items@, #[trigger] out@[q]),
            decreases bs.len() - j,
        {
            let ghost before = out@.map_values(f);
            let n = bs[j].targets.len();
            let mut k: usize = 0;
            proof {
                assert(out@.map_values(f) =~= before + binding_positions(items@, i as int, j as int).take(0));
            }
            while k < n
                invariant
                    k <= n,
                    n == items@[i as int].bindings@[j as int].targets@.len(),
                    i < items.len(),
                    j < items@[i as int].bindings@.len(),
                    f == (|p: (usize, usize, usize)| (p.0 as int, p.1 as int, p.2 as int)),
                    out@.map_values(f) == before + binding_positions(items@, i as int, j as int).take(k as int),
                    forall|q: int| 0 <= q < out@.len() ==> position_valid(items@, #[trigger] out@[q]),
                decreases n - k,
            {
                let ghost prev = out@;
                out.push((i, j, k));
                proof {
                    assert(out@.map_values(f) =~= prev.map_values(f).push((i as int, j as int, k as int)));
                    assert(binding_positions(items@, i as int, j as int).take(k + 1) =~= binding_positions(
                        items@,
                        i as int,
                        j as int,
                    ).take(k as int).push((i as int, j as int, k as int)));
                    assert(out@.map_values(f) =~= before + binding_positions(items@, i as int, j as int).take(k + 1));
                }
                k = k + 1;
            }
            proof {
                assert(binding_positions(items@, i as int, j as int).take(n as int) =~= binding_positions(
                    items@,
                    i as int,
                    j as int,
                ));
                assert(middle.take(j + 1) =~= middle.take(j as int).push(middle[j as int]));
                middle.take(j as int).lemma_flatten_push(middle[j as int]);
                assert(out@.map_values(f) =~= start + middle.take(j + 1).flatten());
            }
            j = j + 1;
        }
        proof {
            assert(middle.take(bs@.len() as int) =~= middle);
            assert(middle.flatten() == item_positions(items@, i as int));
            assert(outer.take(i + 1) =~= outer.take(i as int).push(outer[i as int]));
            outer.take(i as int).lemma_flatten_push(outer[i as int]);
            assert(out@.map_values(f) =~= outer.take(i + 1).flatten());
        }
        i = i + 1;
    }
    proof {
        assert(outer.take(items@.len() as int) =~= outer);
    }
    out
}

// ---------------------------------------------------------------------------
// The related view

/// The specifications related to the root: the items, other than the root,
/// of targets that reach the root's criteria.
pub open spec fn related_specs(
    ts: Seq<(ItemSummary, BindingSummary, BindingTargetSummary)>,
    root_criteria: Set<Seq<char>>,
    root_id: Seq<char>,
) -> Set<(Seq<char>, Seq<char>, Seq<char>, Option<Seq<char>>)> {
    Set::new(
        |x: (Seq<char>, Seq<char>, Seq<char>, Option<Seq<char>>)|
            exists|k: int|
                0 <= k < ts.len() && reaches_root((#[trigger] ts[k]).2, root_criteria) && ts[k].0.id@ != root_id && x == (
                    ts[k].0.id@,
                    ts[k].0.kind@,
                    ts[k].0.title@,
                    spec_model_opt(ts[k].0.presentation_title_key),
                ),
    )
}

/// How many claims the targets of `ts` make.
pub open spec fn claims_total(ts: Seq<(ItemSummary, BindingSummary, BindingTargetSummary)>) -> nat
    decreases ts.len(),
{
    if ts.len() == 0 {
        0
    } else {
        claims_total(ts.drop_last()) + ts.last().2.claims@.len()
    }
}

/// How many claims of the related targets the budget hides.
pub open spec fn hidden_claims_total(
    ts: Seq<(ItemSummary, BindingSummary, BindingTargetSummary)>,
    root_criteria: Set<Seq<char>>,
    budget: nat,
) -> nat
    decreases ts.len(),
{
    if ts.len() == 0 {
        0
    } else {
        let t = ts.last().2;
        hidden_claims_total(ts.drop_last(), root_criteria, budget) + if reaches_root(t, root_criteria) {
            (t.claims@.len() - shown_claims(t, budget)) as nat
        } else {
            0nat
        }
    }
}

pub open spec fn min_nat(a: nat, b: nat) -> nat {
    if a < b {
        a
    } else {
        b
    }
}

proof fn lemma_entries_len(
    ts: Seq<(ItemSummary, BindingSummary, BindingTargetSummary)>,
    root_criteria: Set<Seq<char>>,
    budget: nat,
)
    ensures
        related_entries(ts, root_criteria, budget, false).len() + related_entries(ts, root_criteria, budget, true).len()
            <= ts.len(),
        hidden_claims_total(ts, root_criteria, budget) <= claims_total(ts),
    decreases ts.len(),
{
    if ts.len() > 0 {
        lemma_entries_len(ts.drop_last(), root_criteria, budget);
        let (i, b, t) = ts.last();
        let e = entry_of(i, t, budget);
        lemma_position_bounds(related_entries(ts.drop_last(), root_criteria, budget, false), e);
        lemma_position_bounds(related_entries(ts.drop_last(), root_criteria, budget, true), e);
    }
}

fn claim_reaches(c: &TargetClaim, root_criteria: &SortedStrings) -> (r: bool)
    ensures
        r == ({
            let v = claim_view(*c);
            (v.0 == 0 || v.0 == 1 || v.0 == 6) && root_criteria@.to_set().contains(v.1)
        }),
{
    match c {
        TargetClaim::Satisfies { criterion } => root_criteria.contains(criterion.as_str()),
        TargetClaim::Verifies { criterion, .. } => root_criteria.contains(criterion.as_str()),
        TargetClaim::Evidences { anchor } => root_criteria.contains(anchor.as_str()),
        _ => false,
    }
}

fn target_reaches(t: &BindingTargetSummary, root_criteria: &SortedStrings) -> (r: bool)
    ensures
        r == reaches_root(*t, root_criteria@.to_set()),
{
    let mut k: usize = 0;
    while k < t.claims.len()
        invariant
            k <= t.claims.len(),
            forall|j: int|
                0 <= j < k ==> !({
                    let v = claim_view(#[trigger] t.claims@[j]);
                    (v.0 == 0 || v.0 == 1 || v.0 == 6) && root_criteria@.to_set().contains(v.1)
                }),
        decreases t.claims.len() - k,
    {
        if claim_reaches(&t.claims[k], root_criteria) {
            return true;
        }
        k = k + 1;
    }
    false
}

fn target_is_verification(b: &BindingSummary, t: &BindingTargetSummary) -> (r: bool)
    ensures
        r == is_verification(*b, *t),
{
    if str_eq(b.role.as_str(), "verification") {
        return true;
    }
    let mut k: usize = 0;
    while k < t.claims.len()
        invariant
            k <= t.claims.len(),
            forall|j: int|
                0 <= j < k ==> !(claim_view(#[trigger] t.claims@[j]).0 == 1 || claim_view(t.claims@[j]).0 == 6),
        decreases t.claims.len() - k,
    {
        match &t.claims[k] {
            TargetClaim::Verifies { .. } | TargetClaim::Evidences { .. } => {
                return true;
            },
            _ => {},
        }
        k = k + 1;
    }
    false
}

fn copy_opt(o: &Option<String>) -> (r: Option<String>)
    ensures
        spec_model_opt(r) == spec_model_opt(*o),
{
    match o {
        Some(x) => Some(x.clone()),
        None => None,
    }
}

/// `r` is what the trace shows related to `root` under `budget`, with
/// what the budget hides counted.
pub open spec fn related_shown(
    r: TraceRelatedView,
    items: Seq<ItemSummary>,
    root: ItemSummary,
    root_criteria: Set<Seq<char>>,
    budget: nat,
) -> bool {
    &&& ({
        let ts = catalog_targets(items);
        let rc = root_criteria;
        let impl_all = related_entries(ts, rc, budget, false);
        let verif_all = related_entries(ts, rc, budget, true);
        exists|full: Seq<(Seq<char>, Seq<char>, Seq<char>, Option<Seq<char>>)>| #![trigger specs_sorted(full)] {
            let shown_s = min_nat(full.len(), budget);
            let left = (budget - shown_s) as nat;
            let shown_i = min_nat(impl_all.len(), left);
            let shown_v = min_nat(verif_all.len(), (left - shown_i) as nat);
            &&& specs_sorted(full)
            &&& full.to_set() == related_specs(ts, rc, root.id@)
            &&& spec_models(r.specification@) == full.take(shown_s as int)
            &&& related_models(r.implementation@) == impl_all.take(shown_i as int)
            &&& related_models(r.verification@) == verif_all.take(shown_v as int)
            &&& r.hidden_count == full.len() + impl_all.len() + verif_all.len() - (shown_s + shown_i + shown_v)
        }
    })
    &&& r.hidden_claim_count == hidden_claims_total(catalog_targets(items), root_criteria, budget)
}

/// The specifications and targets related to `root` under `budget`: the
/// targets of the catalog whose claims reach the root's closure criteria,
/// as implementation or verification targets in reference order, each
/// showing at most `budget` claims; the other items they belong to; the
/// specifications, then implementation, then verification entries sharing
/// the budget in that order; and what the budget hides.
pub fn specification_related(
    items: &Vec<ItemSummary>,
    root: &ItemSummary,
    root_criteria: &SortedStrings,
    budget: usize,
) -> (r: TraceRelatedView)
    requires
        2 * catalog_targets(items@).len() <= usize::MAX,
        claims_total(catalog_targets(items@)) <= usize::MAX,
    ensures
        related_shown(r, items@, *root, root_criteria@.to_set(), budget as nat),
{
    let ghost ts = catalog_targets(items@);
    let ghost rc = root_criteria@.to_set();
    let positions = positions_of(items);
    let mut specification: Vec<TraceRelatedSpecificationView> = Vec::new();
    let mut implementation: Vec<TraceRelatedTargetView> = Vec::new();
    let mut verification: Vec<TraceRelatedTargetView> = Vec::new();
    let mut hidden_claims: usize = 0;
    let mut q: usize = 0;
    proof {
        let f = |p: (usize, usize, usize)| (p.0 as int, p.1 as int, p.2 as int);
        assert(positions@.len() == ts.len());
        assert(ts.take(0) =~= Seq::<(ItemSummary, BindingSummary, BindingTargetSummary)>::empty());
        assert(spec_models(specification@).to_set() =~= related_specs(ts.take(0), rc, root.id@));
        assert(related_models(implementation@) =~= Seq::empty());
        assert(related_models(verification@) =~= Seq::empty());
    }
    while q < positions.len()
        invariant
            q <= positions.len(),
            positions@.len() == ts.len(),
            ts == catalog_targets(items@),
            rc == root_criteria@.to_set(),
            forall|x: int| 0 <= x < positions@.len() ==> position_valid(items@, #[trigger] positions@[x]),
            positions@.map_values(|p: (usize, usize, usize)| (p.0 as int, p.1 as int, p.2 as int)) == target_positions(items@),
            2 * ts.len() <= usize::MAX,
            claims_total(ts) <= usize::MAX,
            specs_sorted(spec_models(specification@)),
            spec_models(specification@).to_set() == related_specs(ts.take(q as int), rc, root.id@),
            specification@.len() <= q,
            related_models(implementation@) == related_entries(ts.take(q as int), rc, budget as nat, false),
            related_models(verification@) == related_entries(ts.take(q as int), rc, budget as nat, true),
            hidden_claims == hidden_claims_total(ts.take(q as int), rc, budget as nat),
        decreases positions.len() - q,
    {
        let (i, j, k) = positions[q];
        proof {
            assert(position_valid(items@, positions@[q as int]));
            let f = |p: (usize, usize, usize)| (p.0 as int, p.1 as int, p.2 as int);
            assert(positions@.map_values(f)[q as int] == f(positions@[q as int]));
            assert(ts[q as int] == target_at(items@, (i as int, j as int, k as int)));
        }
        let item = &items[i];
        let b = &item.bindings[j];
        let t = &b.targets[k];
        let ghost pre = ts.take(q as int);
        let ghost post = ts.take(q + 1);
        proof {
            assert(post.drop_last() =~= pre);
            assert(post.last() == ts[q as int]);
            lemma_entries_len(pre, rc, budget as nat);
            lemma_entries_len(post, rc, budget as nat);
            lemma_claims_prefix(ts, q as int);
        }
        let reaches = target_reaches(t, root_criteria);
        if reaches {
            let verif = target_is_verification(b, t);
            if !str_eq(item.id.as_str(), root.id.as_str()) {
                let ghost before = spec_models(specification@);
                insert_spec(
                    &mut specification,
                    TraceRelatedSpecificationView {
                        item_id: item.id.clone(),
                        kind: item.kind.clone(),
                        title: item.title.clone(),
                        presentation_title_key: copy_opt(&item.presentation_title_key),
                    },
                );
                proof {
                    assert(spec_models(specification@).to_set() =~= related_specs(post, rc, root.id@)) by {
                        let xm = (item.id@, item.kind@, item.title@, spec_model_opt(item.presentation_title_key));
                        assert forall|x| related_specs(post, rc, root.id@).contains(x) == (related_specs(pre, rc, root.id@).contains(x) || x == xm) by {
                            if related_specs(post, rc, root.id@).contains(x) {
                                let w = choose|w: int|
                                    0 <= w < post.len() && reaches_root((#[trigger] post[w]).2, rc) && post[w].0.id@ != root.id@ && x == (
                                        post[w].0.id@,
                                        post[w].0.kind@,
                                        post[w].0.title@,
                                        spec_model_opt(post[w].0.presentation_title_key),
                                    );
                                if w < q {
                                    assert(pre[w] == post[w]);
                                }
                            }
                            if related_specs(pre, rc, root.id@).contains(x) {
                                let w = choose|w: int|
                                    0 <= w < pre.len() && reaches_root((#[trigger] pre[w]).2, rc) && pre[w].0.id@ != root.id@ && x == (
                                        pre[w].0.id@,
                                        pre[w].0.kind@,
                                        pre[w].0.title@,
                                        spec_model_opt(pre[w].0.presentation_title_key),
                                    );
                                assert(post[w] == pre[w]);
                            }
                            if x == xm {
                                assert(post[q as int] == ts[q as int]);
                            }
                        }
                    }
                }
            } else {
                proof {
                    assert(spec_models(specification@).to_set() =~= related_specs(post, rc, root.id@)) by {
                        assert forall|x| related_specs(post, rc, root.id@).contains(x) == related_specs(pre, rc, root.id@).contains(x) by {
                            if related_specs(post, rc, root.id@).contains(x) {
                                let w = choose|w: int|
                                    0 <= w < post.len() && reaches_root((#[trigger] post[w]).2, rc) && post[w].0.id@ != root.id@ && x == (
                                        post[w].0.id@,
                                        post[w].0.kind@,
                                        post[w].0.title@,
                                        spec_model_opt(post[w].0.presentation_title_key),
                                    );
                                if w < q {
                                    assert(pre[w] == post[w]);
                                }
                            }
                            if related_specs(pre, rc, root.id@).contains(x) {
                                let w = choose|w: int|
                                    0 <= w < pre.len() && reaches_root((#[trigger] pre[w]).2, rc) && pre[w].0.id@ != root.id@ && x == (
                                        pre[w].0.id@,
                                        pre[w].0.kind@,
                                        pre[w].0.title@,
                                        spec_model_opt(pre[w].0.presentation_title_key),
                                    );
                                assert(post[w] == pre[w]);
                            }
                        }
                    }
                }
            }
            let (copy, hidden) = copy_target(t, budget);
            let entry = TraceRelatedTargetView { item_id: item.id.clone(), target: copy, hidden_claim_count: hidden };
            proof {
                assert(related_model(entry) == entry_of(*item, *t, budget as nat));
                assert(hidden_claims + hidden <= claims_total(post));
            }
            hidden_claims = hidden_claims + hidden;
            if verif {
                insert_related(&mut verification, entry);
            } else {
                insert_related(&mut implementation, entry);
            }
        } else {
            proof {
                assert(spec_models(specification@).to_set() =~= related_specs(post, rc, root.id@)) by {
                    assert forall|x| related_specs(post, rc, root.id@).contains(x) == related_specs(pre, rc, root.id@).contains(x) by {
                        if related_specs(post, rc, root.id@).contains(x) {
                            let w = choose|w: int|
                                0 <= w < post.len() && reaches_root((#[trigger] post[w]).2, rc) && post[w].0.id@ != root.id@ && x == (
                                    post[w].0.id@,
                                    post[w].0.kind@,
                                    post[w].0.title@,
                                    spec_model_opt(post[w].0.presentation_title_key),
                                );
                            if w < q {
                                assert(pre[w] == post[w]);
                            }
                        }
                        if related_specs(pre, rc, root.id@).contains(x) {
                            let w = choose|w: int|
                                0 <= w < pre.len() && reaches_root((#[trigger] pre[w]).2, rc) && pre[w].0.id@ != root.id@ && x == (
                                    pre[w].0.id@,
                                    pre[w].0.kind@,
                                    pre[w].0.title@,
                                    spec_model_opt(pre[w].0.presentation_title_key),
                                );
                            assert(post[w] == pre[w]);
                        }
                    }
                }
            }
        }
        q = q + 1;
    }
    proof {
        assert(ts.take(ts.len() as int) =~= ts);
        lemma_entries_len(ts, rc, budget as nat);
    }
    // The budget is shared by specifications, then implementation, then
    // verification entries.
    let spec_count = specification.len();
    let impl_count = implementation.len();
    let verif_count = verification.len();
    let shown_s = if spec_count < budget { spec_count } else { budget };
    let left = budget - shown_s;
    let shown_i = if impl_count < left { impl_count } else { left };
    let left2 = left - shown_i;
    let shown_v = if verif_count < left2 { verif_count } else { left2 };
    let ghost full = spec_models(specification@);
    specification.truncate(shown_s);
    implementation.truncate(shown_i);
    verification.truncate(shown_v);
    proof {
        assert(spec_models(specification@) =~= full.take(shown_s as int));
        assert(specs_sorted(full));
        assert(related_models(implementation@) =~= related_entries(ts, rc, budget as nat, false).take(shown_i as int));
        assert(related_models(verification@) =~= related_entries(ts, rc, budget as nat, true).take(shown_v as int));
    }
    let hidden_count = spec_count + impl_count + verif_count - (shown_s + shown_i + shown_v);
    TraceRelatedView {
        specification,
        implementation,
        verification,
        hidden_count,
        hidden_claim_count: hidden_claims,
    }
}

proof fn lemma_claims_prefix(ts: Seq<(ItemSummary, BindingSummary, BindingTargetSummary)>, q: int)
    requires
        0 <= q < ts.len(),
    ensures
        claims_total(ts.take(q + 1)) <= claims_total(ts),
    decreases ts.len() - q,
{
    if q + 1 < ts.len() {
        lemma_claims_prefix(ts, q + 1);
        assert(ts.take(q + 2).drop_last() =~= ts.take(q + 1));
    } else {
        assert(ts.take(q + 1) =~= ts);
    }
}

/// Two sorted sequences of specification entries with the same members
/// are equal.
proof fn lemma_specs_sorted_unique(
    a: Seq<(Seq<char>, Seq<char>, Seq<char>, Option<Seq<char>>)>,
    b: Seq<(Seq<char>, Seq<char>, Seq<char>, Option<Seq<char>>)>,
)
    requires
        specs_sorted(a),
        specs_sorted(b),
        a.to_set() == b.to_set(),
    ensures
        a == b,
    decreases a.len(),
{
    if a.len() == 0 {
        if b.len() > 0 {
            assert(b.to_set().contains(b[0]));
            assert(a.to_set().contains(b[0]));
        }
        assert(a =~= b);
    } else {
        assert(a.to_set().contains(a[0]));
        assert(b.to_set().contains(a[0]));
        let j = choose|j: int| 0 <= j < b.len() && b[j] == a[0];
        assert(b.to_set().contains(b[0]));
        assert(a.to_set().contains(b[0]));
        let i = choose|i: int| 0 <= i < a.len() && a[i] == b[0];
        if j > 0 {
            assert(spec_lt(b[0], b[j]));
            if i > 0 {
                assert(spec_lt(a[0], a[i]));
                lemma_spec_transitive(a[0], b[0], a[0]);
            }
            lemma_spec_total(a[0], a[0]);
        }
        assert(a[0] == b[0]);
        let a1 = a.drop_first();
        let b1 = b.drop_first();
        assert forall|x: (Seq<char>, Seq<char>, Seq<char>, Option<Seq<char>>)|
            a1.to_set().contains(x) <==> b1.to_set().contains(x) by {
            if a1.to_set().contains(x) {
                let p = choose|p: int| 0 <= p < a1.len() && a1[p] == x;
                assert(a[p + 1] == x);
                assert(spec_lt(a[0], x));
                lemma_spec_total(x, x);
                assert(a.to_set().contains(x));
                let q = choose|q: int| 0 <= q < b.len() && b[q] == x;
                assert(q != 0);
                assert(b1[q - 1] == x);
            }
            if b1.to_set().contains(x) {
                let p = choose|p: int| 0 <= p < b1.len() && b1[p] == x;
                assert(b[p + 1] == x);
                assert(spec_lt(b[0], x));
                lemma_spec_total(x, x);
                assert(b.to_set().contains(x));
                let q = choose|q: int| 0 <= q < a.len() && a[q] == x;
                assert(q != 0);
                assert(a1[q - 1] == x);
            }
        }
        assert(a1.to_set() =~= b1.to_set());
        lemma_specs_sorted_unique(a1, b1);
        assert(a =~= seq![a[0]] + a1);
        assert(b =~= seq![b[0]] + b1);
    }
}

/// What is shown related to an item is determined by the catalog, the
/// item, its criteria and the budget.
pub proof fn lemma_related_shown_unique(
    r1: TraceRelatedView,
    r2: TraceRelatedView,
    items: Seq<ItemSummary>,
    root: ItemSummary,
    root_criteria: Set<Seq<char>>,
    budget: nat,
)
    requires
        related_shown(r1, items, root, root_criteria, budget),
        related_shown(r2, items, root, root_criteria, budget),
    ensures
        spec_models(r1.specification@) == spec_models(r2.specification@),
        related_models(r1.implementation@) == related_models(r2.implementation@),
        related_models(r1.verification@) == related_models(r2.verification@),
        r1.hidden_count == r2.hidden_count,
        r1.hidden_claim_count == r2.hidden_claim_count,
{
    let ts = catalog_targets(items);
    let f1 = choose|full: Seq<(Seq<char>, Seq<char>, Seq<char>, Option<Seq<char>>)>|
        #![trigger specs_sorted(full)]
        {
            let impl_all = related_entries(ts, root_criteria, budget, false);
            let verif_all = related_entries(ts, root_criteria, budget, true);
            let shown_s = min_nat(full.len(), budget);
            let left = (budget - shown_s) as nat;
            let shown_i = min_nat(impl_all.len(), left);
            let shown_v = min_nat(verif_all.len(), (left - shown_i) as nat);
            &&& specs_sorted(full)
            &&& full.to_set() == related_specs(ts, root_criteria, root.id@)
            &&& spec_models(r1.specification@) == full.take(shown_s as int)
            &&& related_models(r1.implementation@) == impl_all.take(shown_i as int)
            &&& related_models(r1.verification@) == verif_all.take(shown_v as int)
            &&& r1.hidden_count == full.len() + impl_all.len() + verif_all.len() - (shown_s + shown_i + shown_v)
        };
    let f2 = choose|full: Seq<(Seq<char>, Seq<char>, Seq<char>, Option<Seq<char>>)>|
        #![trigger specs_sorted(full)]
        {
            let impl_all = related_entries(ts, root_criteria, budget, false);
            let verif_all = related_entries(ts, root_criteria, budget, true);
            let shown_s = min_nat(full.len(), budget);
            let left = (budget - shown_s) as nat;
            let shown_i = min_nat(impl_all.len(), left);
            let shown_v = min_nat(verif_all.len(), (left - shown_i) as nat);
            &&& specs_sorted(full)
            &&& full.to_set() == related_specs(ts, root_criteria, root.id@)
            &&& spec_models(r2.specification@) == full.take(shown_s as int)
            &&& related_models(r2.implementation@) == impl_all.take(shown_i as int)
            &&& related_models(r2.verification@) == verif_all.take(shown_v as int)
            &&& r2.hidden_count == full.len() + impl_all.len() + verif_all.len() - (shown_s + shown_i + shown_v)
        };
    lemma_specs_sorted_unique(f1, f2);
}

} // verus!
