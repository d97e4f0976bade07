//! Whether an execution slice still holds the whole exact origin closure of
//! its plan, so that a slice selected earlier may be executed as planned.
use vstd::prelude::*;
use crate::selection::TargetTransition;
use crate::sorted::SortedStrings;
use crate::capabilities::{sorted_set_of, strs};
use crate::text::str_eq;

verus! {

/// What a plan wants of a target's presence.
#[derive(Debug, Clone, Copy, PartialEq, Eq, Structural)]
pub enum TargetLifecycle {
    Stable,
    EnsurePresent,
    EnsureAbsent,
}

/// A target of an execution slice.
pub struct SliceTarget {
    pub reference: String,
    pub lifecycle: TargetLifecycle,
    pub transition: TargetTransition,
}

/// The targets and contracts of an exact origin closure.
pub struct OriginClosure {
    pub implementation_targets: Vec<String>,
    pub verification_targets: Vec<String>,
    pub readonly_targets: Vec<String>,
    pub contracts: Vec<String>,
}

/// An execution slice: its editable, verification and read-only targets,
/// and its contracts.
pub struct SliceView {
    pub editable_targets: Vec<SliceTarget>,
    pub verification_targets: Vec<SliceTarget>,
    pub readonly_context: Vec<SliceTarget>,
    pub contracts: Vec<String>,
}

/// What the specification index knows of targets: those it holds in a
/// lifecycle other than absent, those it holds at all, and those with an
/// artifact.
pub struct IndexTargets {
    pub active: SortedStrings,
    pub known: SortedStrings,
    pub with_artifact: SortedStrings,
}

/// A contract of the index.
pub struct ContractFacts {
    pub anchor: String,
    pub guarantees: Vec<String>,
    pub source: String,
    pub participants: Vec<String>,
}

pub open spec fn refs(v: Seq<SliceTarget>) -> Seq<Seq<char>> {
    v.map_values(|t: SliceTarget| t.reference@)
}

/// Whether a planned target can be executed as the index stands.
pub open spec fn target_valid(t: SliceTarget, index: IndexTargets) -> bool {
    match t.lifecycle {
        TargetLifecycle::Stable => index.active@.contains(t.reference@),
        TargetLifecycle::EnsurePresent => index.active@.contains(t.reference@) || (t.transition
            is Add && index.known@.contains(t.reference@)),
        TargetLifecycle::EnsureAbsent => t.transition is Remove && index.with_artifact@.contains(
            t.reference@,
        ),
    }
}

/// Whether `planned_target` can be executed as the index stands.
pub fn candidate_target_is_valid(index: &IndexTargets, planned_target: &SliceTarget) -> (r: bool)
    ensures
        r == target_valid(*planned_target, *index),
{
    let reference = planned_target.reference.as_str();
    match planned_target.lifecycle {
        TargetLifecycle::Stable => index.active.contains(reference),
        TargetLifecycle::EnsurePresent => index.active.contains(reference) || (matches!(
            planned_target.transition,
            TargetTransition::Add
        ) && index.known.contains(reference)),
        TargetLifecycle::EnsureAbsent => matches!(planned_target.transition, TargetTransition::Remove)
            && index.with_artifact.contains(reference),
    }
}

/// All slice targets, editable first, then verification, then read-only.
pub open spec fn slice_targets(s: SliceView) -> Seq<SliceTarget> {
    s.editable_targets@ + s.verification_targets@ + s.readonly_context@
}

/// `k` is the last slice target with reference `t` (a later one replaces an
/// earlier one, as in a map keyed by reference).
pub open spec fn last_with(ts: Seq<SliceTarget>, t: Seq<char>, k: int) -> bool {
    0 <= k < ts.len() && ts[k].reference@ == t && forall|j: int| k < j < ts.len() ==> (#[trigger] ts[j]).reference@ != t
}

/// Whether the closure target `t` is covered: the slice plans it validly,
/// or the index holds it.
pub open spec fn closure_target_covered(s: SliceView, index: IndexTargets, t: Seq<char>) -> bool {
    (exists|k: int| last_with(slice_targets(s), t, k) && target_valid(slice_targets(s)[k], index))
        || index.active@.contains(t)
}

/// The contract with anchor `a`: the first of `contracts` that has it.
pub open spec fn contract_at(contracts: Seq<ContractFacts>, a: Seq<char>, k: int) -> bool {
    0 <= k < contracts.len() && contracts[k].anchor@ == a && forall|j: int|
        0 <= j < k ==> (#[trigger] contracts[j]).anchor@ != a
}

/// The targets a contract relates: its source and its participants.
pub open spec fn contract_targets(c: ContractFacts) -> Seq<Seq<char>> {
    seq![c.source@] + strs(c.participants@)
}

/// A contract of the closure matters when it guarantees the origin's
/// criterion and relates a target of the slice.
pub open spec fn contract_relevant(c: ContractFacts, criterion: Seq<char>, slice_refs: Set<Seq<char>>) -> bool {
    strs(c.guarantees@).contains(criterion) && exists|j: int|
        0 <= j < contract_targets(c).len() && slice_refs.contains(#[trigger] contract_targets(c)[j])
}

/// A relevant contract is satisfied when every target it relates is a
/// read-only target of the closure that the index holds.
pub open spec fn contract_satisfied(c: ContractFacts, readonly: Set<Seq<char>>, index: IndexTargets) -> bool {
    forall|j: int|
        0 <= j < contract_targets(c).len() ==> readonly.contains(#[trigger] contract_targets(c)[j])
            && index.active@.contains(contract_targets(c)[j])
}

/// Whether the slice holds the whole exact origin closure of the plan:
/// the closure the planner derives for the slice has the slice's own
/// targets and contracts; the plan's closure implements every target the
/// origin names; every closure target is planned validly or held by the
/// index; every slice target belongs to the closure in its role; and every
/// contract of the closure that guarantees the origin's criterion and
/// relates a slice target relates only read-only targets of the closure
/// that the index holds.
pub open spec fn closure_complete(
    derived: OriginClosure,
    plan: OriginClosure,
    origin_targets: Seq<Seq<char>>,
    criterion: Seq<char>,
    slice: SliceView,
    index: IndexTargets,
    contracts: Seq<ContractFacts>,
) -> bool {
    let all = slice_targets(slice);
    let plan_targets = strs(plan.implementation_targets@) + strs(plan.verification_targets@) + strs(
        plan.readonly_targets@,
    );
    &&& strs(derived.implementation_targets@).to_set() == refs(slice.editable_targets@).to_set()
    &&& strs(derived.verification_targets@).to_set() == refs(slice.verification_targets@).to_set()
    &&& strs(derived.readonly_targets@).to_set() == refs(slice.readonly_context@).to_set()
    &&& strs(derived.contracts@).to_set() == strs(slice.contracts@).to_set()
    &&& forall|j: int|
        0 <= j < origin_targets.len() ==> strs(plan.implementation_targets@).contains(#[trigger] origin_targets[j])
    &&& forall|j: int| 0 <= j < plan_targets.len() ==> closure_target_covered(slice, index, #[trigger] plan_targets[j])
    &&& forall|j: int|
        0 <= j < slice.editable_targets@.len() ==> strs(plan.implementation_targets@).contains(
            (#[trigger] slice.editable_targets@[j]).reference@,
        )
    &&& forall|j: int|
        0 <= j < slice.verification_targets@.len() ==> strs(plan.verification_targets@).contains(
            (#[trigger] slice.verification_targets@[j]).reference@,
        )
    &&& forall|j: int|
        0 <= j < slice.readonly_context@.len() ==> strs(plan.readonly_targets@).contains(
            (#[trigger] slice.readonly_context@[j]).reference@,
        )
    &&& forall|j: int, k: int|
        0 <= j < plan.contracts@.len() && #[trigger] contract_at(contracts, plan.contracts@[j]@, k)
            && contract_relevant(contracts[k], criterion, refs(all).to_set()) ==> contract_satisfied(
            contracts[k],
            strs(plan.readonly_targets@).to_set(),
            index,
        )
}

// ---------------------------------------------------------------------------
// The checks

fn refs_set(v: &Vec<SliceTarget>) -> (r: SortedStrings)
    ensures
        r@.to_set() == refs(v@).to_set(),
{
    let mut r = SortedStrings::new();
    let mut i: usize = 0;
    proof {
        assert(refs(v@).take(0).to_set() =~= Set::empty());
        assert(r@.to_set() =~= Set::empty());
    }
    while i < v.len()
        invariant
            i <= v.len(),
            r@.to_set() == refs(v@).take(i as int).to_set(),
        decreases v.len() - i,
    {
        r.insert(v[i].reference.as_str());
        proof {
            assert(refs(v@).take(i + 1) =~= refs(v@).take(i as int).push(v@[i as int].reference@));
            refs(v@).take(i as int).lemma_push_to_set_commute(v@[i as int].reference@);
        }
        i = i + 1;
    }
    proof {
        assert(refs(v@).take(v@.len() as int) =~= refs(v@));
    }
    r
}

/// Whether every string of `v` is in `set`.
fn all_in(v: &Vec<String>, set: &SortedStrings) -> (r: bool)
    ensures
        r == forall|j: int| 0 <= j < v@.len() ==> set@.to_set().contains(#[trigger] strs(v@)[j]),
{
    let mut j: usize = 0;
    while j < v.len()
        invariant
            j <= v.len(),
            forall|q: int| 0 <= q < j ==> set@.to_set().contains(#[trigger] strs(v@)[q]),
        decreases v.len() - j,
    {
        if !set.contains(v[j].as_str()) {
            proof {
                assert(strs(v@)[j as int] == v@[j as int]@);
            }
            return false;
        }
        j = j + 1;
    }
    true
}

/// Whether two sets of strings are equal.
fn same_set(a: &SortedStrings, b: &SortedStrings) -> (r: bool)
    ensures
        r == (a@.to_set() == b@.to_set()),
{
    let av = a.to_vec();
    let bv = b.to_vec();
    let a_in_b = all_in(&av, b);
    let b_in_a = all_in(&bv, a);
    proof {
        assert(strs(av@) == a@);
        assert(strs(bv@) == b@);
        if a_in_b && b_in_a {
            assert forall|x: Seq<char>| a@.to_set().contains(x) == b@.to_set().contains(x) by {
                if a@.to_set().contains(x) {
                    let q = choose|q: int| 0 <= q < a@.len() && a@[q] == x;
                    assert(b@.to_set().contains(strs(av@)[q]));
                }
                if b@.to_set().contains(x) {
                    let q = choose|q: int| 0 <= q < b@.len() && b@[q] == x;
                    assert(a@.to_set().contains(strs(bv@)[q]));
                }
            }
            assert(a@.to_set() =~= b@.to_set());
        } else if !a_in_b {
            let q = choose|q: int| 0 <= q < av@.len() && !b@.to_set().contains(#[trigger] strs(av@)[q]);
            assert(a@.to_set().contains(a@[q]));
        } else {
            let q = choose|q: int| 0 <= q < bv@.len() && !a@.to_set().contains(#[trigger] strs(bv@)[q]);
            assert(b@.to_set().contains(b@[q]));
        }
    }
    a_in_b && b_in_a
}

/// Whether every slice target's reference is in `set`.
fn refs_all_in(v: &Vec<SliceTarget>, set: &SortedStrings) -> (r: bool)
    ensures
        r == forall|j: int| 0 <= j < v@.len() ==> set@.to_set().contains((#[trigger] v@[j]).reference@),
{
    let mut j: usize = 0;
    while j < v.len()
        invariant
            j <= v.len(),
            forall|q: int| 0 <= q < j ==> set@.to_set().contains((#[trigger] v@[q]).reference@),
        decreases v.len() - j,
    {
        if !set.contains(v[j].reference.as_str()) {
            return false;
        }
        j = j + 1;
    }
    true
}

fn copy_target(t: &SliceTarget) -> (r: SliceTarget)
    ensures
        r == *t,
{
    SliceTarget { reference: t.reference.clone(), lifecycle: t.lifecycle, transition: t.transition }
}

fn push_targets(out: &mut Vec<SliceTarget>, v: &Vec<SliceTarget>)
    ensures
        final(out)@ == old(out)@ + v@,
{
    let ghost start = out@;
    let mut i: usize = 0;
    while i < v.len()
        invariant
            i <= v.len(),
            out@ == start + v@.take(i as int),
        decreases v.len() - i,
    {
        out.push(copy_target(&v[i]));
        proof {
            assert(out@ =~= start + v@.take(i + 1));
        }
        i = i + 1;
    }
    proof {
        assert(v@.take(v@.len() as int) =~= v@);
    }
}

fn all_slice_targets(slice: &SliceView) -> (r: Vec<SliceTarget>)
    ensures
        r@ == slice_targets(*slice),
{
    let mut all: Vec<SliceTarget> = Vec::new();
    push_targets(&mut all, &slice.editable_targets);
    push_targets(&mut all, &slice.verification_targets);
    push_targets(&mut all, &slice.readonly_context);
    proof {
        assert(all@ =~= slice_targets(*slice));
    }
    all
}

/// Whether closure target `t` is covered by the slice targets `all`.
fn target_covered(all: &Vec<SliceTarget>, index: &IndexTargets, t: &str) -> (r: bool)
    ensures
        r == ((exists|k: int| last_with(all@, t@, k) && target_valid(all@[k], *index)) || index.active@.contains(
            t@,
        )),
{
    let mut k: usize = all.len();
    let mut planned_valid = false;
    while k > 0
        invariant_except_break
            !planned_valid,
        invariant
            k <= all.len(),
            forall|j: int| k <= j < all@.len() ==> (#[trigger] all@[j]).reference@ != t@,
        ensures
            planned_valid == (exists|q: int| last_with(all@, t@, q) && target_valid(all@[q], *index)),
        decreases k,
    {
        if str_eq(all[k - 1].reference.as_str(), t) {
            planned_valid = candidate_target_is_valid(index, &all[k - 1]);
            proof {
                assert(last_with(all@, t@, k - 1));
                assert forall|q: int| last_with(all@, t@, q) implies q == k - 1 by {
                    if q < k - 1 {
                        assert(all@[k - 1].reference@ == t@);
                    }
                }
            }
            break;
        }
        k = k - 1;
    }
    planned_valid || index.active.contains(t)
}

/// Whether every target of `v` is covered.
fn all_covered(v: &Vec<String>, all: &Vec<SliceTarget>, index: &IndexTargets, slice: &SliceView) -> (r: bool)
    requires
        all@ == slice_targets(*slice),
    ensures
        r == forall|j: int| 0 <= j < v@.len() ==> closure_target_covered(*slice, *index, #[trigger] strs(v@)[j]),
{
    let mut j: usize = 0;
    while j < v.len()
        invariant
            j <= v.len(),
            all@ == slice_targets(*slice),
            forall|q: int| 0 <= q < j ==> closure_target_covered(*slice, *index, #[trigger] strs(v@)[q]),
        decreases v.len() - j,
    {
        let c = target_covered(all, index, v[j].as_str());
        proof {
            assert(strs(v@)[j as int] == v@[j as int]@);
        }
        if !c {
            return false;
        }
        j = j + 1;
    }
    true
}

pub(crate) fn contains_string(v: &Vec<String>, s: &str) -> (r: bool)
    ensures
        r == strs(v@).contains(s@),
{
    let mut j: usize = 0;
    while j < v.len()
        invariant
            j <= v.len(),
            forall|q: int| 0 <= q < j ==> strs(v@)[q] != s@,
        decreases v.len() - j,
    {
        if str_eq(v[j].as_str(), s) {
            proof {
                assert(strs(v@)[j as int] == s@);
            }
            return true;
        }
        proof {
            assert(strs(v@)[j as int] == v@[j as int]@);
        }
        j = j + 1;
    }
    false
}

fn find_contract(contracts: &Vec<ContractFacts>, anchor: &str) -> (r: Option<usize>)
    ensures
        match r {
            Some(k) => contract_at(contracts@, anchor@, k as int),
            None => forall|k: int| !contract_at(contracts@, anchor@, k),
        },
{
    let mut k: usize = 0;
    while k < contracts.len()
        invariant
            k <= contracts.len(),
            forall|j: int| 0 <= j < k ==> (#[trigger] contracts@[j]).anchor@ != anchor@,
        decreases contracts.len() - k,
    {
        if str_eq(contracts[k].anchor.as_str(), anchor) {
            return Some(k);
        }
        k = k + 1;
    }
    None
}

/// Whether a target the contract relates is in `set`.
fn relates_any(c: &ContractFacts, set: &SortedStrings) -> (r: bool)
    ensures
        r == exists|j: int| 0 <= j < contract_targets(*c).len() && set@.to_set().contains(#[trigger] contract_targets(*c)[j]),
{
    let ghost ts = contract_targets(*c);
    if set.contains(c.source.as_str()) {
        proof {
            assert(ts[0] == c.source@);
        }
        return true;
    }
    let mut j: usize = 0;
    while j < c.participants.len()
        invariant
            j <= c.participants.len(),
            ts == contract_targets(*c),
            !set@.to_set().contains(ts[0]),
            forall|q: int| 1 <= q < j + 1 ==> !set@.to_set().contains(#[trigger] ts[q]),
        decreases c.participants.len() - j,
    {
        proof {
            assert(ts[j + 1] == c.participants@[j as int]@);
        }
        if set.contains(c.participants[j].as_str()) {
            return true;
        }
        j = j + 1;
    }
    proof {
        assert forall|q: int| 0 <= q < ts.len() implies !set@.to_set().contains(#[trigger] ts[q]) by {
            if q > 0 {
                assert(1 <= q < j + 1);
            }
        }
    }
    false
}

/// Whether every target the contract relates is a read-only closure target
/// the index holds.
fn relates_only(c: &ContractFacts, readonly: &SortedStrings, index: &IndexTargets) -> (r: bool)
    ensures
        r == contract_satisfied(*c, readonly@.to_set(), *index),
{
    let ghost ts = contract_targets(*c);
    let ok0 = readonly.contains(c.source.as_str()) && index.active.contains(c.source.as_str());
    proof {
        assert(ts[0] == c.source@);
    }
    if !ok0 {
        return false;
    }
    let mut j: usize = 0;
    while j < c.participants.len()
        invariant
            j <= c.participants.len(),
            ts == contract_targets(*c),
            forall|q: int| 0 <= q < j + 1 ==> readonly@.to_set().contains(#[trigger] ts[q]) && index.active@.contains(
                ts[q],
            ),
        decreases c.participants.len() - j,
    {
        proof {
            assert(ts[j + 1] == c.participants@[j as int]@);
        }
        let p = c.participants[j].as_str();
        if !(readonly.contains(p) && index.active.contains(p)) {
            return false;
        }
        j = j + 1;
    }
    true
}

/// Whether the plan's closure contracts that matter hold.
fn contracts_hold(
    plan_contracts: &Vec<String>,
    contracts: &Vec<ContractFacts>,
    criterion: &str,
    slice_refs: &SortedStrings,
    readonly: &SortedStrings,
    index: &IndexTargets,
) -> (r: bool)
    ensures
        r == forall|j: int, k: int|
            0 <= j < plan_contracts@.len() && #[trigger] contract_at(contracts@, plan_contracts@[j]@, k)
                && contract_relevant(contracts@[k], criterion@, slice_refs@.to_set()) ==> contract_satisfied(
                contracts@[k],
                readonly@.to_set(),
                *index,
            ),
{
    let mut j: usize = 0;
    while j < plan_contracts.len()
        invariant
            j <= plan_contracts.len(),
            forall|q: int, k: int|
                0 <= q < j && #[trigger] contract_at(contracts@, plan_contracts@[q]@, k) && contract_relevant(
                    contracts@[k],
                    criterion@,
                    slice_refs@.to_set(),
                ) ==> contract_satisfied(contracts@[k], readonly@.to_set(), *index),
        decreases plan_contracts.len() - j,
    {
        if let Some(k) = find_contract(contracts, plan_contracts[j].as_str()) {
            let c = &contracts[k];
            let relevant = contains_string(&c.guarantees, criterion) && relates_any(c, slice_refs);
            proof {
                assert forall|k2: int| contract_at(contracts@, plan_contracts@[j as int]@, k2) implies k2 == k by {
                    if k2 < k {
                        assert(contracts@[k2].anchor@ != plan_contracts@[j as int]@);
                    } else if k2 > k {
                        assert(contracts@[k as int].anchor@ != plan_contracts@[j as int]@);
                    }
                }
            }
            if relevant {
                let ok = relates_only(c, readonly, index);
                if !ok {
                    return false;
                }
            }
        }
        j = j + 1;
    }
    true
}

/// Whether the slice still holds the whole exact origin closure of the
/// plan.  `derived` is the closure the planner derives for the slice, `plan`
/// the closure the plan was made with; `origin_targets` and `criterion` are
/// those of the request's origin.
pub fn origin_closure_is_complete(
    derived: &OriginClosure,
    plan: &OriginClosure,
    origin_targets: &Vec<String>,
    criterion: &str,
    slice: &SliceView,
    index: &IndexTargets,
    contracts: &Vec<ContractFacts>,
) -> (r: bool)
    ensures
        r == closure_complete(*derived, *plan, strs(origin_targets@), criterion@, *slice, *index, contracts@),
{
    // The derived closure has exactly the slice's targets and contracts.
    let di = sorted_set_of(&derived.implementation_targets);
    let dv = sorted_set_of(&derived.verification_targets);
    let dr = sorted_set_of(&derived.readonly_targets);
    let dc = sorted_set_of(&derived.contracts);
    let si = refs_set(&slice.editable_targets);
    let sv = refs_set(&slice.verification_targets);
    let sr = refs_set(&slice.readonly_context);
    let sc = sorted_set_of(&slice.contracts);
    if !same_set(&di, &si) || !same_set(&dv, &sv) || !same_set(&dr, &sr) || !same_set(&dc, &sc) {
        return false;
    }
    // The plan's closure implements every target the origin names.
    let pi = sorted_set_of(&plan.implementation_targets);
    let pv = sorted_set_of(&plan.verification_targets);
    let pr = sorted_set_of(&plan.readonly_targets);
    let named = all_in(origin_targets, &pi);
    proof {
        assert forall|x: Seq<char>| pi@.to_set().contains(x) == strs(plan.implementation_targets@).contains(x) by {
            assert(strs(plan.implementation_targets@).contains(x) == strs(plan.implementation_targets@).to_set().contains(x));
        }
    }
    if !named {
        return false;
    }
    // Every closure target is planned validly or held by the index.
    let all = all_slice_targets(slice);
    let covered = all_covered(&plan.implementation_targets, &all, index, slice) && all_covered(
        &plan.verification_targets,
        &all,
        index,
        slice,
    ) && all_covered(&plan.readonly_targets, &all, index, slice);
    proof {
        let pt = strs(plan.implementation_targets@) + strs(plan.verification_targets@) + strs(plan.readonly_targets@);
        let a = strs(plan.implementation_targets@);
        let b = strs(plan.verification_targets@);
        let c = strs(plan.readonly_targets@);
        if covered {
            assert forall|j: int| 0 <= j < pt.len() implies closure_target_covered(*slice, *index, #[trigger] pt[j]) by {
                if j < a.len() {
                    assert(pt[j] == a[j]);
                } else if j < a.len() + b.len() {
                    assert(pt[j] == b[j - a.len()]);
                } else {
                    assert(pt[j] == c[j - a.len() - b.len()]);
                }
            }
        } else {
            if !all_covered_spec(a, *slice, *index) {
                let j = choose|j: int| 0 <= j < a.len() && !closure_target_covered(*slice, *index, #[trigger] a[j]);
                assert(pt[j] == a[j]);
            } else if !all_covered_spec(b, *slice, *index) {
                let j = choose|j: int| 0 <= j < b.len() && !closure_target_covered(*slice, *index, #[trigger] b[j]);
                assert(pt[j + a.len()] == b[j]);
            } else {
                let j = choose|j: int| 0 <= j < c.len() && !closure_target_covered(*slice, *index, #[trigger] c[j]);
                assert(pt[j + a.len() + b.len()] == c[j]);
            }
        }
    }
    if !covered {
        return false;
    }
    // Every slice target belongs to the closure in its role.
    let in_role = refs_all_in(&slice.editable_targets, &pi) && refs_all_in(&slice.verification_targets, &pv)
        && refs_all_in(&slice.readonly_context, &pr);
    proof {
        assert forall|x: Seq<char>| pv@.to_set().contains(x) == strs(plan.verification_targets@).contains(x) by {
            assert(strs(plan.verification_targets@).contains(x) == strs(plan.verification_targets@).to_set().contains(x));
        }
        assert forall|x: Seq<char>| pr@.to_set().contains(x) == strs(plan.readonly_targets@).contains(x) by {
            assert(strs(plan.readonly_targets@).contains(x) == strs(plan.readonly_targets@).to_set().contains(x));
        }
    }
    if !in_role {
        return false;
    }
    // The contracts that matter relate only read-only targets the index
    // holds.
    let slice_refs = refs_set(&all);
    let held = contracts_hold(&plan.contracts, contracts, criterion, &slice_refs, &pr, index);
    proof {
        assert(refs(all@).to_set() == refs(slice_targets(*slice)).to_set());
    }
    held
}

pub open spec fn all_covered_spec(v: Seq<Seq<char>>, s: SliceView, index: IndexTargets) -> bool {
    forall|j: int| 0 <= j < v.len() ==> closure_target_covered(s, index, #[trigger] v[j])
}

} // verus!
