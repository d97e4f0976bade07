//! Which work origins the specification catalog offers: an exact
//! Requirement criterion, or a Feature implementation binding and its
//! targets, and how an origin the planner refused is shown.
use vstd::prelude::*;
use crate::sorted::SortedStrings;
use crate::text::{compare_chars, chars_of, seq_lt, str_eq};
use crate::trace::ids_sorted;
use crate::work::WorkOrigin;

verus! {

/// A target of a Feature implementation binding, as the index resolves it.
pub struct OfferTarget {
    /// The target's canonical reference, when its reference parses.
    pub reference: Option<String>,
    /// Whether the index holds the target in a lifecycle other than absent.
    pub present: bool,
    /// The criteria the target's artifact claims to satisfy.
    pub satisfies: Vec<String>,
}

/// A target that can be offered, with the criteria it satisfies.
pub struct TargetCriteria {
    pub reference: String,
    pub criteria: SortedStrings,
}

pub open spec fn strs(v: Seq<String>) -> Seq<Seq<char>> {
    v.map_values(|s: String| s@)
}

/// A target takes part when its reference parses and the index holds it.
pub open spec fn offered(t: OfferTarget) -> bool {
    t.reference is Some && t.present
}

pub open spec fn reference_of(t: OfferTarget) -> Seq<char> {
    t.reference->0@
}

/// `k` is the first target that takes part with reference `r`.
pub open spec fn first_offered(ts: Seq<OfferTarget>, r: Seq<char>, k: int) -> bool {
    &&& 0 <= k < ts.len()
    &&& offered(ts[k])
    &&& reference_of(ts[k]) == r
    &&& forall|j: int| 0 <= j < k ==> !(offered(#[trigger] ts[j]) && reference_of(ts[j]) == r)
}

pub open spec fn tc_model(e: TargetCriteria) -> (Seq<char>, Seq<Seq<char>>) {
    (e.reference@, e.criteria@)
}

pub open spec fn tc_refs(tc: Seq<(Seq<char>, Seq<Seq<char>>)>) -> Seq<Seq<char>> {
    tc.map_values(|e: (Seq<char>, Seq<Seq<char>>)| e.0)
}

/// `c` holds the criteria of the first target, among the first `bound`,
/// that takes part with reference `r`.
pub open spec fn criteria_from(ts: Seq<OfferTarget>, r: Seq<char>, c: Seq<Seq<char>>, bound: int) -> bool {
    exists|k: int| 0 <= k < bound && first_offered(ts, r, k) && c.to_set() == strs(ts[k].satisfies@).to_set()
}

proof fn lemma_criteria_widen(ts: Seq<OfferTarget>, r: Seq<char>, c: Seq<Seq<char>>, a: int, b: int)
    requires
        a <= b,
        criteria_from(ts, r, c, a),
    ensures
        criteria_from(ts, r, c, b),
{
    let k = choose|k: int| 0 <= k < a && first_offered(ts, r, k) && c.to_set() == strs(ts[k].satisfies@).to_set();
    assert(0 <= k < b && first_offered(ts, r, k) && c.to_set() == strs(ts[k].satisfies@).to_set());
}

/// What the targets of a binding offer: each reference that takes part
/// once, in reference order, with the criteria of its first appearance, in
/// order and without repeats.
pub open spec fn target_criteria_of(ts: Seq<OfferTarget>, tc: Seq<(Seq<char>, Seq<Seq<char>>)>) -> bool {
    &&& ids_sorted(tc_refs(tc))
    &&& forall|i: int|
        0 <= i < tc.len() ==> ids_sorted(#[trigger] tc[i].1) && criteria_from(ts, tc[i].0, tc[i].1, ts.len() as int)
    &&& forall|k: int|
        0 <= k < ts.len() && offered(#[trigger] ts[k]) ==> tc_refs(tc).contains(reference_of(ts[k]))
}

pub(crate) fn sorted_set_of(v: &Vec<String>) -> (r: SortedStrings)
    ensures
        r@.to_set() == strs(v@).to_set(),
        ids_sorted(r@),
{
    let mut r = SortedStrings::new();
    let mut i: usize = 0;
    proof {
        assert(strs(v@).take(0).to_set() =~= Set::empty());
        assert(r@.to_set() =~= Set::empty());
    }
    while i < v.len()
        invariant
            i <= v.len(),
            ids_sorted(r@),
            r@.to_set() == strs(v@).take(i as int).to_set(),
        decreases v.len() - i,
    {
        r.insert(v[i].as_str());
        proof {
            assert(strs(v@).take(i + 1) =~= strs(v@).take(i as int).push(v@[i as int]@));
            strs(v@).take(i as int).lemma_push_to_set_commute(v@[i as int]@);
        }
        i = i + 1;
    }
    proof {
        assert(strs(v@).take(v@.len() as int) =~= strs(v@));
    }
    r
}

/// The targets of a binding that take part, in reference order, each with
/// the criteria it satisfies.
pub fn target_criteria(targets: &Vec<OfferTarget>) -> (r: Vec<TargetCriteria>)
    ensures
        target_criteria_of(targets@, r@.map_values(|e: TargetCriteria| tc_model(e))),
{
    let mut out: Vec<TargetCriteria> = Vec::new();
    let mut i: usize = 0;
    while i < targets.len()
        invariant
            i <= targets.len(),
            ids_sorted(tc_refs(out@.map_values(|e: TargetCriteria| tc_model(e)))),
            forall|q: int|
                0 <= q < out@.len() ==> ids_sorted(#[trigger] out@[q].criteria@) && criteria_from(
                    targets@,
                    out@[q].reference@,
                    out@[q].criteria@,
                    i as int,
                ),
            forall|k: int|
                0 <= k < i && offered(#[trigger] targets@[k]) ==> exists|q: int|
                    0 <= q < out@.len() && out@[q].reference@ == reference_of(targets@[k]),
        decreases targets.len() - i,
    {
        let t = &targets[i];
        if t.present {
            if let Some(reference) = &t.reference {
                let key = chars_of(reference.as_str());
                // Find the first entry not below `key`.
                let mut p: usize = 0;
                while p < out.len()
                    invariant
                        p <= out.len(),
                        forall|q: int| 0 <= q < p ==> seq_lt(#[trigger] out@[q].reference@, key@),
                    ensures
                        p <= out.len(),
                        forall|q: int| 0 <= q < p ==> seq_lt(#[trigger] out@[q].reference@, key@),
                        p < out.len() ==> !seq_lt(out@[p as int].reference@, key@),
                    decreases out.len() - p,
                {
                    let c = compare_chars(&chars_of(out[p].reference.as_str()), &key);
                    if c >= 0 {
                        break;
                    }
                    p = p + 1;
                }
                let ghost om = out@.map_values(|e: TargetCriteria| tc_model(e));
                let exists_here = p < out.len() && str_eq(out[p].reference.as_str(), reference.as_str());
                if !exists_here {
                    proof {
                        // No entry holds `key` yet.
                        assert forall|q: int| 0 <= q < out@.len() implies out@[q].reference@ != key@ by {
                            if q < p {
                                crate::text::lemma_lt_irreflexive(key@);
                            } else {
                                assert(tc_refs(om)[p as int] == out@[p as int].reference@);
                                assert(tc_refs(om)[q] == out@[q].reference@);
                                crate::text::lemma_lt_total(out@[p as int].reference@, key@);
                                if q > p {
                                    crate::text::lemma_lt_transitive(key@, out@[p as int].reference@, out@[q].reference@);
                                }
                                crate::text::lemma_lt_irreflexive(key@);
                            }
                        }
                        assert(first_offered(targets@, key@, i as int)) by {
                            assert forall|j: int| 0 <= j < i implies !(offered(#[trigger] targets@[j])
                                && reference_of(targets@[j]) == key@) by {
                                if offered(targets@[j]) && reference_of(targets@[j]) == key@ {
                                    let q = choose|q: int|
                                        0 <= q < out@.len() && out@[q].reference@ == reference_of(targets@[j]);
                                }
                            }
                        }
                    }
                    let criteria = sorted_set_of(&t.satisfies);
                    let ghost before = out@;
                    out.insert(p, TargetCriteria { reference: reference.clone(), criteria });
                    proof {
                        let nm = out@.map_values(|e: TargetCriteria| tc_model(e));
                        let nr = tc_refs(nm);
                        let orf = tc_refs(om);
                        assert forall|a: int, b: int| 0 <= a < b < nr.len() implies seq_lt(nr[a], nr[b]) by {
                            assert(nr[a] == out@[a].reference@ && nr[b] == out@[b].reference@);
                            if b < p {
                                assert(out@[a] == before[a] && out@[b] == before[b]);
                                assert(orf[a] == before[a].reference@ && orf[b] == before[b].reference@);
                            } else if b == p {
                                assert(out@[a] == before[a]);
                            } else if a == p {
                                assert(out@[b] == before[b - 1]);
                                crate::text::lemma_lt_total(before[p as int].reference@, key@);
                                if b - 1 > p {
                                    assert(orf[p as int] == before[p as int].reference@);
                                    assert(orf[b - 1] == before[b - 1].reference@);
                                    crate::text::lemma_lt_transitive(key@, before[p as int].reference@, before[b - 1].reference@);
                                }
                            } else if a < p {
                                assert(out@[a] == before[a] && out@[b] == before[b - 1]);
                                crate::text::lemma_lt_total(before[p as int].reference@, key@);
                                if b - 1 > p {
                                    assert(orf[p as int] == before[p as int].reference@);
                                    assert(orf[b - 1] == before[b - 1].reference@);
                                    crate::text::lemma_lt_transitive(key@, before[p as int].reference@, before[b - 1].reference@);
                                }
                                crate::text::lemma_lt_transitive(before[a].reference@, key@, before[b - 1].reference@);
                            } else {
                                assert(out@[a] == before[a - 1] && out@[b] == before[b - 1]);
                                assert(orf[a - 1] == before[a - 1].reference@ && orf[b - 1] == before[b - 1].reference@);
                            }
                        }
                        assert forall|q: int|
                            0 <= q < out@.len() implies ids_sorted(#[trigger] out@[q].criteria@) && criteria_from(
                                targets@,
                                out@[q].reference@,
                                out@[q].criteria@,
                                i + 1,
                            ) by {
                            if q < p {
                                assert(out@[q] == before[q]);
                                lemma_criteria_widen(targets@, before[q].reference@, before[q].criteria@, i as int, i + 1);
                            } else if q > p {
                                assert(out@[q] == before[q - 1]);
                                lemma_criteria_widen(targets@, before[q - 1].reference@, before[q - 1].criteria@, i as int, i + 1);
                            } else {
                                assert(first_offered(targets@, out@[q].reference@, i as int));
                            }
                        }
                        assert forall|k: int|
                            0 <= k < i + 1 && offered(#[trigger] targets@[k]) implies exists|q: int|
                                0 <= q < out@.len() && out@[q].reference@ == reference_of(targets@[k]) by {
                            if k == i {
                                assert(out@[p as int].reference@ == key@);
                            } else {
                                let q = choose|q: int|
                                    0 <= q < before.len() && before[q].reference@ == reference_of(targets@[k]);
                                if q < p {
                                    assert(out@[q] == before[q]);
                                } else {
                                    assert(out@[q + 1] == before[q]);
                                }
                            }
                        }
                    }
                }
            }
        }
        proof {
            assert forall|q: int| 0 <= q < out@.len() implies criteria_from(
                targets@,
                out@[q].reference@,
                out@[q].criteria@,
                i + 1,
            ) by {
                if criteria_from(targets@, out@[q].reference@, out@[q].criteria@, i as int) {
                    lemma_criteria_widen(targets@, out@[q].reference@, out@[q].criteria@, i as int, i + 1);
                }
            }
        }
        i = i + 1;
    }
    proof {
        let m = out@.map_values(|e: TargetCriteria| tc_model(e));
        assert forall|k: int| 0 <= k < targets@.len() && offered(#[trigger] targets@[k]) implies tc_refs(m).contains(
            reference_of(targets@[k]),
        ) by {
            let q = choose|q: int| 0 <= q < out@.len() && out@[q].reference@ == reference_of(targets@[k]);
            assert(tc_refs(m)[q] == out@[q].reference@);
        }
        assert forall|q: int| 0 <= q < m.len() implies ids_sorted(#[trigger] m[q].1) && criteria_from(
            targets@,
            m[q].0,
            m[q].1,
            targets@.len() as int,
        ) by {
            assert(m[q] == tc_model(out@[q]));
        }
    }
    out
}

// ---------------------------------------------------------------------------
// Offers

/// An origin the catalog offers, before the planner checks it: either one
/// exact origin with its label, or, for a binding whose targets satisfy
/// several criteria, the refusal that lists the nearest exact origins.
#[derive(Debug, Clone)]
pub enum OriginOffer {
    Exact { origin: WorkOrigin, label: String },
    Ambiguous { nearest: Vec<WorkOrigin> },
}

/// A work origin as plain text.
pub enum OriginModel {
    Criterion(Seq<char>),
    Binding(Seq<char>, Seq<char>, Seq<Seq<char>>),
    Target(Seq<char>, Seq<char>, Seq<char>),
}

pub enum OfferModel {
    Exact(OriginModel, Seq<char>),
    Ambiguous(Seq<OriginModel>),
}

pub open spec fn origin_model(o: WorkOrigin) -> OriginModel {
    match o {
        WorkOrigin::RequirementCriterion { criterion } => OriginModel::Criterion(criterion@),
        WorkOrigin::FeatureImplementationBinding { binding, criterion, targets } => OriginModel::Binding(
            binding@,
            criterion@,
            strs(targets@),
        ),
        WorkOrigin::FeatureImplementationTarget { target, binding, criterion } => OriginModel::Target(
            target@,
            binding@,
            criterion@,
        ),
    }
}

pub open spec fn offer_model(o: OriginOffer) -> OfferModel {
    match o {
        OriginOffer::Exact { origin, label } => OfferModel::Exact(origin_model(origin), label@),
        OriginOffer::Ambiguous { nearest } => OfferModel::Ambiguous(
            nearest@.map_values(|x: WorkOrigin| origin_model(x)),
        ),
    }
}

pub open spec fn offers_model(v: Seq<OriginOffer>) -> Seq<OfferModel> {
    v.map_values(|o: OriginOffer| offer_model(o))
}

/// Every criterion some target satisfies.
pub open spec fn all_criteria(tc: Seq<(Seq<char>, Seq<Seq<char>>)>) -> Set<Seq<char>> {
    Set::new(|c: Seq<char>| exists|i: int| 0 <= i < tc.len() && #[trigger] tc[i].1.contains(c))
}

/// For one criterion `c`: an offer per target that satisfies it.
pub open spec fn single_target_offers(b: Seq<char>, c: Seq<char>, tc: Seq<(Seq<char>, Seq<Seq<char>>)>) -> Seq<
    OfferModel,
>
    decreases tc.len(),
{
    if tc.len() == 0 {
        Seq::empty()
    } else {
        single_target_offers(b, c, tc.drop_last()) + if tc.last().1.contains(c) {
            seq![OfferModel::Exact(OriginModel::Target(tc.last().0, b, c), "Implementation target"@)]
        } else {
            Seq::empty()
        }
    }
}

/// An offer per target and criterion it satisfies.
pub open spec fn every_target_offers(b: Seq<char>, tc: Seq<(Seq<char>, Seq<Seq<char>>)>) -> Seq<OfferModel>
    decreases tc.len(),
{
    if tc.len() == 0 {
        Seq::empty()
    } else {
        every_target_offers(b, tc.drop_last()) + tc.last().1.map_values(
            |c: Seq<char>| OfferModel::Exact(OriginModel::Target(tc.last().0, b, c), "Implementation target"@),
        )
    }
}

/// What a Feature implementation binding `b` offers, given its targets'
/// criteria and all criteria `u` in order: with one criterion, the binding
/// and each target that satisfies it; otherwise each target per criterion,
/// then the refusal with the binding per criterion as nearest origins.
pub open spec fn binding_offers_model(
    b: Seq<char>,
    tc: Seq<(Seq<char>, Seq<Seq<char>>)>,
    u: Seq<Seq<char>>,
) -> Seq<OfferModel> {
    let targets = tc_refs(tc);
    if u.len() == 1 {
        seq![OfferModel::Exact(OriginModel::Binding(b, u[0], targets), "Feature implementation"@)]
            + single_target_offers(b, u[0], tc)
    } else {
        every_target_offers(b, tc) + seq![
            OfferModel::Ambiguous(u.map_values(|c: Seq<char>| OriginModel::Binding(b, c, targets))),
        ]
    }
}

fn copy_strings(v: &Vec<String>) -> (r: Vec<String>)
    ensures
        strs(r@) == strs(v@),
{
    let mut r: Vec<String> = Vec::new();
    let mut i: usize = 0;
    while i < v.len()
        invariant
            i <= v.len(),
            strs(r@) == strs(v@).take(i as int),
        decreases v.len() - i,
    {
        let ghost before = r@;
        let x = v[i].clone();
        r.push(x);
        proof {
            assert(r@ == before.push(v@[i as int]));
            assert(strs(r@) =~= strs(before).push(v@[i as int]@));
            assert(strs(v@).take(i + 1) =~= strs(v@).take(i as int).push(v@[i as int]@));
            assert(strs(r@) =~= strs(v@).take(i + 1));
        }
        i = i + 1;
    }
    proof {
        assert(strs(v@).take(v@.len() as int) =~= strs(v@));
    }
    r
}

/// The offers of the Feature implementation binding `binding` over its
/// targets' criteria.
pub fn binding_offers(binding: &str, tc: &Vec<TargetCriteria>) -> (r: Vec<OriginOffer>)
    requires
        forall|i: int| 0 <= i < tc@.len() ==> ids_sorted(#[trigger] tc@[i].criteria@),
    ensures
        exists|u: Seq<Seq<char>>|
            ids_sorted(u) && u.to_set() == all_criteria(tc@.map_values(|e: TargetCriteria| tc_model(e)))
                && offers_model(r@) == binding_offers_model(
                binding@,
                tc@.map_values(|e: TargetCriteria| tc_model(e)),
                u,
            ),
{
    let ghost m = tc@.map_values(|e: TargetCriteria| tc_model(e));
    // The targets, in order, and every criterion.
    let mut targets: Vec<String> = Vec::new();
    let mut union = SortedStrings::new();
    let mut i: usize = 0;
    proof {
        assert(union@.to_set() =~= all_criteria(m.take(0)));
    }
    while i < tc.len()
        invariant
            i <= tc.len(),
            m == tc@.map_values(|e: TargetCriteria| tc_model(e)),
            strs(targets@) == tc_refs(m).take(i as int),
            union@.to_set() == all_criteria(m.take(i as int)),
            ids_sorted(union@),
        decreases tc.len() - i,
    {
        let ghost tbefore = targets@;
        let reference = tc[i].reference.clone();
        targets.push(reference);
        proof {
            assert(targets@ == tbefore.push(tc@[i as int].reference));
            assert(strs(targets@) =~= strs(tbefore).push(m[i as int].0));
            assert(tc_refs(m).take(i + 1) =~= tc_refs(m).take(i as int).push(m[i as int].0));
        }
        let cs = tc[i].criteria.to_vec();
        let mut j: usize = 0;
        let ghost base = union@.to_set();
        proof {
            assert(strs(cs@) == m[i as int].1);
            assert(strs(cs@).take(0).to_set() =~= Set::empty());
            assert(base + strs(cs@).take(0).to_set() =~= base);
        }
        while j < cs.len()
            invariant
                j <= cs.len(),
                ids_sorted(union@),
                union@.to_set() == base + strs(cs@).take(j as int).to_set(),
            decreases cs.len() - j,
        {
            union.insert(cs[j].as_str());
            proof {
                assert(strs(cs@).take(j + 1) =~= strs(cs@).take(j as int).push(cs@[j as int]@));
                strs(cs@).take(j as int).lemma_push_to_set_commute(cs@[j as int]@);
                assert(union@.to_set() =~= base + strs(cs@).take(j + 1).to_set());
            }
            j = j + 1;
        }
        proof {
            assert(strs(cs@).take(cs@.len() as int) =~= strs(cs@));
            assert(strs(targets@) =~= tc_refs(m).take(i + 1));
            assert(m.take(i + 1).drop_last() =~= m.take(i as int));
            assert(union@.to_set() =~= all_criteria(m.take(i + 1))) by {
                assert forall|c: Seq<char>| union@.to_set().contains(c) implies all_criteria(m.take(i + 1)).contains(c) by {
                    if base.contains(c) {
                        let k = choose|k: int| 0 <= k < m.take(i as int).len() && #[trigger] m.take(i as int)[k].1.contains(c);
                        assert(m.take(i + 1)[k] == m.take(i as int)[k]);
                    } else {
                        assert(m[i as int].1.to_set().contains(c));
                        assert(m.take(i + 1)[i as int] == m[i as int]);
                    }
                }
                assert forall|c: Seq<char>| all_criteria(m.take(i + 1)).contains(c) implies union@.to_set().contains(c) by {
                    let k = choose|k: int| 0 <= k < m.take(i + 1).len() && #[trigger] m.take(i + 1)[k].1.contains(c);
                    if k < i {
                        assert(m.take(i as int)[k] == m.take(i + 1)[k]);
                        assert(base.contains(c));
                    } else {
                        assert(m[i as int].1.contains(c));
                        assert(m[i as int].1.to_set().contains(c));
                    }
                }
            }
        }
        i = i + 1;
    }
    proof {
        assert(m.take(m.len() as int) =~= m);
        assert(tc_refs(m).take(m.len() as int) =~= tc_refs(m));
    }
    let u = union.to_vec();
    let mut out: Vec<OriginOffer> = Vec::new();
    if u.len() == 1 {
        let c = &u[0];
        out.push(
            OriginOffer::Exact {
                origin: WorkOrigin::FeatureImplementationBinding {
                    binding: binding.to_owned(),
                    criterion: c.clone(),
                    targets: copy_strings(&targets),
                },
                label: "Feature implementation".to_owned(),
            },
        );
        let mut k: usize = 0;
        proof {
            reveal_strlit("Feature implementation");
            assert(strs(u@)[0] == u@[0]@);
            assert(offers_model(out@) =~= seq![
                OfferModel::Exact(OriginModel::Binding(binding@, u@[0]@, tc_refs(m)), "Feature implementation"@),
            ] + single_target_offers(binding@, u@[0]@, m.take(0)));
        }
        while k < tc.len()
            invariant
                k <= tc.len(),
                m == tc@.map_values(|e: TargetCriteria| tc_model(e)),
                u@.len() == 1,
                offers_model(out@) == seq![
                    OfferModel::Exact(OriginModel::Binding(binding@, u@[0]@, tc_refs(m)), "Feature implementation"@),
                ] + single_target_offers(binding@, u@[0]@, m.take(k as int)),
            decreases tc.len() - k,
        {
            let ghost before = out@;
            proof {
                assert(m.take(k + 1).drop_last() =~= m.take(k as int));
                assert(m.take(k + 1).last() == m[k as int]);
            }
            if tc[k].criteria.contains(u[0].as_str()) {
                out.push(
                    OriginOffer::Exact {
                        origin: WorkOrigin::FeatureImplementationTarget {
                            target: tc[k].reference.clone(),
                            binding: binding.to_owned(),
                            criterion: u[0].clone(),
                        },
                        label: "Implementation target".to_owned(),
                    },
                );
                proof {
                    reveal_strlit("Implementation target");
                    assert(offers_model(out@) =~= offers_model(before).push(
                        OfferModel::Exact(OriginModel::Target(m[k as int].0, binding@, u@[0]@), "Implementation target"@),
                    ));
                }
            }
            k = k + 1;
        }
        proof {
            assert(m.take(m.len() as int) =~= m);
            assert(u@.map_values(|s: String| s@)[0] == u@[0]@);
            assert(offers_model(out@) == binding_offers_model(binding@, m, u@.map_values(|s: String| s@)));
        }
    } else {
        let mut k: usize = 0;
        proof {
            assert(offers_model(out@) =~= every_target_offers(binding@, m.take(0)));
        }
        while k < tc.len()
            invariant
                k <= tc.len(),
                m == tc@.map_values(|e: TargetCriteria| tc_model(e)),
                offers_model(out@) == every_target_offers(binding@, m.take(k as int)),
            decreases tc.len() - k,
        {
            let cs = tc[k].criteria.to_vec();
            let ghost start = offers_model(out@);
            let ghost f = |c: Seq<char>| OfferModel::Exact(OriginModel::Target(m[k as int].0, binding@, c), "Implementation target"@);
            let mut j: usize = 0;
            proof {
                assert(strs(cs@) == m[k as int].1);
                assert(offers_model(out@) =~= start + strs(cs@).take(0).map_values(f));
            }
            while j < cs.len()
                invariant
                    j <= cs.len(),
                    offers_model(out@) == start + strs(cs@).take(j as int).map_values(f),
                    f == (|c: Seq<char>| OfferModel::Exact(OriginModel::Target(m[k as int].0, binding@, c), "Implementation target"@)),
                    m == tc@.map_values(|e: TargetCriteria| tc_model(e)),
                    k < tc.len(),
                decreases cs.len() - j,
            {
                let ghost before = out@;
                out.push(
                    OriginOffer::Exact {
                        origin: WorkOrigin::FeatureImplementationTarget {
                            target: tc[k].reference.clone(),
                            binding: binding.to_owned(),
                            criterion: cs[j].clone(),
                        },
                        label: "Implementation target".to_owned(),
                    },
                );
                proof {
                    reveal_strlit("Implementation target");
                    assert(m[k as int].0 == tc@[k as int].reference@);
                    let x = strs(cs@)[j as int];
                    assert(x == cs@[j as int]@);
                    assert(offers_model(out@) =~= offers_model(before).push(f(x)));
                    assert(strs(cs@).take(j + 1) =~= strs(cs@).take(j as int).push(x));
                    assert(strs(cs@).take(j + 1).map_values(f) =~= strs(cs@).take(j as int).map_values(f).push(f(x)));
                    assert(offers_model(out@) =~= start + strs(cs@).take(j + 1).map_values(f));
                }
                j = j + 1;
            }
            proof {
                assert(strs(cs@).take(cs@.len() as int) =~= strs(cs@));
                assert(m.take(k + 1).drop_last() =~= m.take(k as int));
                assert(m.take(k + 1).last() == m[k as int]);
                assert(offers_model(out@) =~= every_target_offers(binding@, m.take(k + 1)));
            }
            k = k + 1;
        }
        let mut nearest: Vec<WorkOrigin> = Vec::new();
        let mut j: usize = 0;
        let ghost g = |c: Seq<char>| OriginModel::Binding(binding@, c, tc_refs(m));
        while j < u.len()
            invariant
                j <= u.len(),
                strs(targets@) == tc_refs(m),
                m == tc@.map_values(|e: TargetCriteria| tc_model(e)),
                g == (|c: Seq<char>| OriginModel::Binding(binding@, c, tc_refs(m))),
                nearest@.map_values(|x: WorkOrigin| origin_model(x)) == strs(u@).take(j as int).map_values(g),
            decreases u.len() - j,
        {
            let ghost before = nearest@;
            nearest.push(
                WorkOrigin::FeatureImplementationBinding {
                    binding: binding.to_owned(),
                    criterion: u[j].clone(),
                    targets: copy_strings(&targets),
                },
            );
            proof {
                assert(nearest@.map_values(|x: WorkOrigin| origin_model(x)) =~= before.map_values(
                    |x: WorkOrigin| origin_model(x),
                ).push(g(u@[j as int]@)));
            }
            proof {
                let x = strs(u@)[j as int];
                assert(x == u@[j as int]@);
                assert(strs(u@).take(j + 1) =~= strs(u@).take(j as int).push(x));
                assert(strs(u@).take(j + 1).map_values(g) =~= strs(u@).take(j as int).map_values(g).push(g(x)));
                assert(nearest@.map_values(|x: WorkOrigin| origin_model(x)) =~= strs(u@).take(j + 1).map_values(g));
            }
            j = j + 1;
        }
        let ghost before = out@;
        out.push(OriginOffer::Ambiguous { nearest });
        proof {
            assert(strs(u@).take(u@.len() as int) =~= strs(u@));
            assert(m.take(m.len() as int) =~= m);
            assert(offers_model(out@) =~= offers_model(before).push(OfferModel::Ambiguous(strs(u@).map_values(g))));
            assert(offers_model(out@) == binding_offers_model(binding@, m, strs(u@)));
        }
    }
    proof {
        assert(union@ == strs(u@));
    }
    out
}

// ---------------------------------------------------------------------------
// The catalog's offers

/// A binding of a Feature, as the catalog lists it.
pub struct OfferBinding {
    pub role: String,
    /// The binding's canonical anchor, when its anchor parses.
    pub anchor: Option<String>,
    pub targets: Vec<OfferTarget>,
}

/// A specification item, as the catalog lists it.
pub struct OfferItem {
    pub kind: String,
    /// The canonical anchor of each criterion, when it parses.
    pub criteria: Vec<Option<String>>,
    pub bindings: Vec<OfferBinding>,
}

/// What a binding offers: nothing unless it is an implementation binding
/// whose anchor parses; then the offers over its targets' criteria.
pub open spec fn binding_offers_of(b: OfferBinding, offers: Seq<OfferModel>) -> bool {
    if b.role@ != "implementation"@ || b.anchor is None {
        offers == Seq::<OfferModel>::empty()
    } else {
        exists|tc: Seq<(Seq<char>, Seq<Seq<char>>)>, u: Seq<Seq<char>>|
            target_criteria_of(b.targets@, tc) && ids_sorted(u) && u.to_set() == all_criteria(tc) && offers
                == binding_offers_model(b.anchor->0@, tc, u)
    }
}

/// A Requirement offers each of its criteria whose anchor parses.
pub open spec fn criterion_offers(cs: Seq<Option<String>>) -> Seq<OfferModel>
    decreases cs.len(),
{
    if cs.len() == 0 {
        Seq::empty()
    } else {
        criterion_offers(cs.drop_last()) + match cs.last() {
            Some(a) => seq![OfferModel::Exact(OriginModel::Criterion(a@), "Requirement criterion"@)],
            None => Seq::empty(),
        }
    }
}

/// What an item offers: a Requirement its criteria, a Feature its
/// bindings' offers in order, any other item nothing.
pub open spec fn item_offers_of(item: OfferItem, offers: Seq<OfferModel>) -> bool {
    if item.kind@ == "requirement"@ {
        offers == criterion_offers(item.criteria@)
    } else if item.kind@ == "feature"@ {
        exists|parts: Seq<Seq<OfferModel>>|
            parts.len() == item.bindings@.len() && (forall|i: int|
                0 <= i < parts.len() ==> binding_offers_of(item.bindings@[i], #[trigger] parts[i]))
                && offers == parts.flatten()
    } else {
        offers == Seq::<OfferModel>::empty()
    }
}

fn requirement_offers(criteria: &Vec<Option<String>>) -> (r: Vec<OriginOffer>)
    ensures
        offers_model(r@) == criterion_offers(criteria@),
{
    let mut out: Vec<OriginOffer> = Vec::new();
    let mut i: usize = 0;
    proof {
        assert(criteria@.take(0) =~= Seq::<Option<String>>::empty());
        assert(offers_model(out@) =~= Seq::empty());
    }
    while i < criteria.len()
        invariant
            i <= criteria.len(),
            offers_model(out@) == criterion_offers(criteria@.take(i as int)),
        decreases criteria.len() - i,
    {
        proof {
            assert(criteria@.take(i + 1).drop_last() =~= criteria@.take(i as int));
            assert(criteria@.take(i + 1).last() == criteria@[i as int]);
        }
        if let Some(anchor) = &criteria[i] {
            let ghost before = out@;
            out.push(
                OriginOffer::Exact {
                    origin: WorkOrigin::RequirementCriterion { criterion: anchor.clone() },
                    label: "Requirement criterion".to_owned(),
                },
            );
            proof {
                reveal_strlit("Requirement criterion");
                assert(offers_model(out@) =~= offers_model(before).push(
                    OfferModel::Exact(OriginModel::Criterion(anchor@), "Requirement criterion"@),
                ));
            }
        }
        i = i + 1;
    }
    proof {
        assert(criteria@.take(criteria@.len() as int) =~= criteria@);
    }
    out
}

fn feature_offers(bindings: &Vec<OfferBinding>) -> (r: Vec<OriginOffer>)
    ensures
        exists|parts: Seq<Seq<OfferModel>>|
            parts.len() == bindings@.len() && (forall|i: int|
                0 <= i < parts.len() ==> binding_offers_of(bindings@[i], #[trigger] parts[i]))
                && offers_model(r@) == parts.flatten(),
{
    let mut out: Vec<OriginOffer> = Vec::new();
    let ghost mut parts: Seq<Seq<OfferModel>> = Seq::empty();
    let mut i: usize = 0;
    proof {
        assert(offers_model(out@) =~= parts.flatten());
    }
    while i < bindings.len()
        invariant
            i <= bindings.len(),
            parts.len() == i,
            forall|k: int| 0 <= k < i ==> binding_offers_of(bindings@[k], #[trigger] parts[k]),
            offers_model(out@) == parts.flatten(),
        decreases bindings.len() - i,
    {
        let b = &bindings[i];
        let mut part: Vec<OriginOffer> = Vec::new();
        if str_eq(b.role.as_str(), "implementation") {
            if let Some(anchor) = &b.anchor {
                let tc = target_criteria(&b.targets);
                proof {
                    let m = tc@.map_values(|e: TargetCriteria| tc_model(e));
                    assert forall|q: int| 0 <= q < tc@.len() implies ids_sorted(#[trigger] tc@[q].criteria@) by {
                        assert(m[q] == tc_model(tc@[q]));
                        assert(ids_sorted(m[q].1));
                    }
                }
                part = binding_offers(anchor.as_str(), &tc);
                proof {
                    let m = tc@.map_values(|e: TargetCriteria| tc_model(e));
                    let u = choose|u: Seq<Seq<char>>|
                        ids_sorted(u) && u.to_set() == all_criteria(m) && offers_model(part@)
                            == binding_offers_model(anchor@, m, u);
                    assert(target_criteria_of(b.targets@, m) && ids_sorted(u) && u.to_set() == all_criteria(m)
                        && offers_model(part@) == binding_offers_model(b.anchor->0@, m, u));
                }
            } else {
                proof {
                    assert(offers_model(part@) =~= Seq::<OfferModel>::empty());
                }
            }
        } else {
            proof {
                assert(offers_model(part@) =~= Seq::<OfferModel>::empty());
            }
        }
        proof {
            assert(binding_offers_of(bindings@[i as int], offers_model(part@)));
        }
        let ghost before = out@;
        let ghost added = offers_model(part@);
        let mut moved = part;
        out.append(&mut moved);
        proof {
            assert(offers_model(out@) =~= offers_model(before) + added);
            parts.lemma_flatten_push(added);
            parts = parts.push(added);
        }
        i = i + 1;
    }
    out
}

/// Every origin the catalog offers, item by item in catalog order: each
/// Requirement criterion, and for each Feature implementation binding the
/// binding and its targets (or, with several criteria, each target per
/// criterion and the refusal naming the nearest exact origins).
pub fn origin_offers(items: &Vec<OfferItem>) -> (r: Vec<OriginOffer>)
    ensures
        exists|parts: Seq<Seq<OfferModel>>|
            parts.len() == items@.len() && (forall|i: int|
                0 <= i < parts.len() ==> item_offers_of(items@[i], #[trigger] parts[i]))
                && offers_model(r@) == parts.flatten(),
{
    let mut out: Vec<OriginOffer> = Vec::new();
    let ghost mut parts: Seq<Seq<OfferModel>> = Seq::empty();
    let mut i: usize = 0;
    proof {
        assert(offers_model(out@) =~= parts.flatten());
    }
    while i < items.len()
        invariant
            i <= items.len(),
            parts.len() == i,
            forall|k: int| 0 <= k < i ==> item_offers_of(items@[k], #[trigger] parts[k]),
            offers_model(out@) == parts.flatten(),
        decreases items.len() - i,
    {
        let item = &items[i];
        let part = if str_eq(item.kind.as_str(), "requirement") {
            requirement_offers(&item.criteria)
        } else if str_eq(item.kind.as_str(), "feature") {
            let p = feature_offers(&item.bindings);
            proof {
                reveal_strlit("requirement");
                reveal_strlit("feature");
                assert(item.kind@ != "requirement"@);
            }
            p
        } else {
            let p: Vec<OriginOffer> = Vec::new();
            proof {
                assert(offers_model(p@) =~= Seq::<OfferModel>::empty());
            }
            p
        };
        proof {
            assert(item_offers_of(items@[i as int], offers_model(part@)));
        }
        let ghost before = out@;
        let ghost added = offers_model(part@);
        let mut moved = part;
        out.append(&mut moved);
        proof {
            assert(offers_model(out@) =~= offers_model(before) + added);
            parts.lemma_flatten_push(added);
            parts = parts.push(added);
        }
        i = i + 1;
    }
    out
}

// ---------------------------------------------------------------------------
// Capabilities

/// Whether an origin can start work, and if not, why and what is nearest.
#[derive(Debug, Clone)]
pub struct OriginCapabilityView {
    pub schema: String,
    pub origin: Option<WorkOrigin>,
    pub label: String,
    pub enabled: bool,
    pub disabled_code: Option<String>,
    pub disabled_message: Option<String>,
    pub nearest: Vec<WorkOrigin>,
}

pub open spec fn opt_str(o: Option<String>) -> Option<Seq<char>> {
    match o {
        Some(s) => Some(s@),
        None => None,
    }
}

pub open spec fn opt_origin(o: Option<WorkOrigin>) -> Option<OriginModel> {
    match o {
        Some(x) => Some(origin_model(x)),
        None => None,
    }
}

/// The capability of an exact `origin`, given the planner's refusal message
/// if it refused the origin: enabled when it did not; otherwise disabled,
/// with the refusal's code and message, and the origin as the nearest one.
pub fn origin_capability(schema: &str, origin: WorkOrigin, label: &str, refusal: Option<String>) -> (r:
    OriginCapabilityView)
    ensures
        r.schema@ == schema@,
        r.label@ == label@,
        r.enabled == refusal is None,
        refusal is None ==> opt_origin(r.origin) == Some(origin_model(origin)) && r.disabled_code is None
            && r.disabled_message is None && r.nearest@.len() == 0,
        refusal matches Some(m) ==> r.origin is None && opt_str(r.disabled_code) == Some(
            crate::server::spec_origin_error_code(m@),
        ) && opt_str(r.disabled_message) == Some(m@) && r.nearest@.map_values(
            |x: WorkOrigin| origin_model(x),
        ) == seq![origin_model(origin)],
{
    match refusal {
        None => OriginCapabilityView {
            schema: schema.to_owned(),
            origin: Some(origin),
            label: label.to_owned(),
            enabled: true,
            disabled_code: None,
            disabled_message: None,
            nearest: Vec::new(),
        },
        Some(message) => {
            let code = crate::server::origin_error_code(message.as_str());
            let ghost o = origin;
            let mut nearest: Vec<WorkOrigin> = Vec::new();
            nearest.push(origin);
            proof {
                assert(nearest@.map_values(|x: WorkOrigin| origin_model(x)) =~= seq![origin_model(o)]);
            }
            OriginCapabilityView {
                schema: schema.to_owned(),
                origin: None,
                label: label.to_owned(),
                enabled: false,
                disabled_code: Some(code),
                disabled_message: Some(message),
                nearest,
            }
        },
    }
}

/// The capability shown for a binding whose targets satisfy several
/// criteria: disabled as ambiguous, listing the nearest exact origins.
pub fn ambiguous_capability(schema: &str, nearest: Vec<WorkOrigin>) -> (r: OriginCapabilityView)
    ensures
        r.schema@ == schema@,
        r.origin is None,
        r.label@ == "Feature implementation"@,
        !r.enabled,
        opt_str(r.disabled_code) == Some("ambiguous-origin"@),
        opt_str(r.disabled_message) == Some(
            "choose a Feature implementation binding with one exact Requirement criterion"@,
        ),
        r.nearest@ == nearest@,
{
    OriginCapabilityView {
        schema: schema.to_owned(),
        origin: None,
        label: "Feature implementation".to_owned(),
        enabled: false,
        disabled_code: Some("ambiguous-origin".to_owned()),
        disabled_message: Some(
            "choose a Feature implementation binding with one exact Requirement criterion".to_owned(),
        ),
        nearest,
    }
}

/// The item part of a canonical anchor: what precedes its first `#`, or
/// the whole text when it has none.
pub open spec fn item_part(a: Seq<char>) -> Seq<char> {
    if exists|i: int| 0 <= i < a.len() && a[i] == '#' {
        a.take(choose|i: int| 0 <= i < a.len() && a[i] == '#' && forall|j: int| 0 <= j < i ==> a[j] != '#')
    } else {
        a
    }
}

pub(crate) fn item_of_anchor(a: &str) -> (r: String)
    ensures
        r@ == item_part(a@),
{
    let cs = chars_of(a);
    let mut i: usize = 0;
    while i < cs.len() && cs[i] != '#'
        invariant
            i <= cs.len(),
            cs@ == a@,
            forall|j: int| 0 <= j < i ==> cs@[j] != '#',
        decreases cs.len() - i,
    {
        i = i + 1;
    }
    let mut r = String::new();
    let mut k: usize = 0;
    proof {
        assert(r@ =~= cs@.take(0));
    }
    while k < i
        invariant
            k <= i <= cs.len(),
            r@ == cs@.take(k as int),
        decreases i - k,
    {
        r.push(cs[k]);
        proof {
            assert(r@ =~= cs@.take(k + 1));
        }
        k = k + 1;
    }
    proof {
        if i < cs.len() {
            let c = choose|c: int| 0 <= c < a@.len() && a@[c] == '#' && forall|j: int| 0 <= j < c ==> a@[j] != '#';
            if c < i {
                assert(cs@[c] != '#');
            } else if c > i {
                assert(a@[i as int] == '#');
            }
        } else {
            assert(cs@.take(i as int) =~= cs@);
        }
    }
    r
}

/// The item an origin belongs to: that of its criterion or binding.
pub open spec fn owner_of(o: OriginModel) -> Seq<char> {
    match o {
        OriginModel::Criterion(c) => item_part(c),
        OriginModel::Binding(b, _, _) => item_part(b),
        OriginModel::Target(_, b, _) => item_part(b),
    }
}

/// The item an origin belongs to.
pub fn origin_owner_item(origin: &WorkOrigin) -> (r: String)
    ensures
        r@ == owner_of(origin_model(*origin)),
{
    match origin {
        WorkOrigin::RequirementCriterion { criterion } => item_of_anchor(criterion.as_str()),
        WorkOrigin::FeatureImplementationBinding { binding, .. } => item_of_anchor(binding.as_str()),
        WorkOrigin::FeatureImplementationTarget { binding, .. } => item_of_anchor(binding.as_str()),
    }
}

/// The origin a capability stands for: its own, else its first nearest.
pub open spec fn capability_origin(c: OriginCapabilityView) -> Option<OriginModel> {
    match c.origin {
        Some(o) => Some(origin_model(o)),
        None => if c.nearest@.len() > 0 {
            Some(origin_model(c.nearest@[0]))
        } else {
            None
        },
    }
}

/// Whether capability `c` belongs to item `id`.
pub open spec fn owned_by(c: OriginCapabilityView, id: Seq<char>) -> bool {
    match capability_origin(c) {
        Some(o) => owner_of(o) == id,
        None => false,
    }
}

/// The positions of the capabilities that belong to item `id`, in order.
pub fn capabilities_of_item(caps: &Vec<OriginCapabilityView>, id: &str) -> (r: Vec<usize>)
    ensures
        forall|k: int| 0 <= k < r@.len() ==> r@[k] < caps@.len() && owned_by(caps@[r@[k] as int], id@),
        forall|a: int, b: int| 0 <= a < b < r@.len() ==> r@[a] < r@[b],
        forall|p: int| 0 <= p < caps@.len() && owned_by(caps@[p], id@) ==> r@.contains(p as usize),
{
    let mut out: Vec<usize> = Vec::new();
    let mut i: usize = 0;
    while i < caps.len()
        invariant
            i <= caps.len(),
            forall|k: int| 0 <= k < out@.len() ==> out@[k] < i && owned_by(caps@[out@[k] as int], id@),
            forall|a: int, b: int| 0 <= a < b < out@.len() ==> out@[a] < out@[b],
            forall|p: int| 0 <= p < i && owned_by(caps@[p], id@) ==> out@.contains(p as usize),
        decreases caps.len() - i,
    {
        let c = &caps[i];
        let origin = match &c.origin {
            Some(o) => Some(o),
            None => if c.nearest.len() > 0 {
                Some(&c.nearest[0])
            } else {
                None
            },
        };
        if let Some(o) = origin {
            let owner = origin_owner_item(o);
            if str_eq(owner.as_str(), id) {
                let ghost before = out@;
                out.push(i);
                proof {
                    assert(out@[out@.len() - 1] == i);
                    assert forall|p: int| 0 <= p < i + 1 && owned_by(caps@[p], id@) implies out@.contains(p as usize) by {
                        if p < i {
                            let k = choose|k: int| 0 <= k < before.len() && before[k] == p as usize;
                            assert(out@[k] == p as usize);
                        } else {
                            assert(out@[out@.len() - 1] == p as usize);
                        }
                    }
                }
            }
        }
        i = i + 1;
    }
    out
}

} // verus!
