//! Selecting an execution slice of the candidate plan: the decisions taken
//! before the planner replans the selected slice alone, and the check of
//! what the replan gave back.
use vstd::prelude::*;
use crate::selection::{
    all_consistent, check_editable_transitions, exact_boundary, homogeneous, requested_keys,
    slice_requested_targets, target_keys, target_transitions, PlannedTarget, RequestedTarget,
    TargetTransition, WorkOperation,
};
use crate::text::{owned, str_eq};

verus! {

/// A slice of a plan as selection reads it: its id, its exact targets, and
/// the contracts it is bound to.
#[derive(Debug)]
pub struct SelectableSlice {
    pub id: String,
    pub editable: Vec<PlannedTarget>,
    pub verification: Vec<PlannedTarget>,
    pub readonly: Vec<PlannedTarget>,
    pub contracts: Vec<String>,
}

/// What the planner's canonical plan holds of the requested slice.
#[derive(Debug)]
pub enum CanonicalSlice {
    /// The planner failed, with its message.
    ReplanFailed(String),
    /// The canonical plan has no slice with the id.
    Missing,
    /// The canonical slice differs from the candidate.
    Differs,
    /// The canonical slice is the candidate.
    Same,
}

/// Why selecting a slice is refused: the HTTP status, the code (empty where
/// the answer carries none) and the message.
#[derive(Debug, Clone)]
pub struct SlicingRefusal {
    pub status: u16,
    pub code: String,
    pub message: String,
}

pub open spec fn slicing_view(r: SlicingRefusal) -> (u16, Seq<char>, Seq<char>) {
    (r.status, r.code@, r.message@)
}

/// The request a selected slice becomes: exactly its target boundary, one
/// slice at most, in exact scope, with its generated read-only targets and
/// its contracts held exactly.
#[derive(Debug)]
pub struct SelectedRequestDraft {
    pub requested_targets: Vec<RequestedTarget>,
    pub max_slices: usize,
    pub exact_scope: bool,
    pub exact_generated_targets: Vec<String>,
    pub exact_contracts: Vec<String>,
}

pub open spec fn strs(v: Seq<String>) -> Seq<Seq<char>> {
    v.map_values(|s: String| s@)
}

/// The first slice with id `id`.
pub open spec fn first_slice(slices: Seq<SelectableSlice>, id: Seq<char>) -> Option<int> {
    if exists|k: int| 0 <= k < slices.len() && slices[k].id@ == id {
        Some(choose|k: int| 0 <= k < slices.len() && slices[k].id@ == id && forall|j: int| 0 <= j < k ==> slices[j].id@ != id)
    } else {
        None
    }
}

/// The whole exact boundary of a slice, as reference and transition.
pub open spec fn slice_keys(s: SelectableSlice) -> Seq<(Seq<char>, TargetTransition)> {
    target_keys(s.editable@) + target_keys(s.verification@) + target_keys(s.readonly@)
}

/// The references of the generated read-only targets, in order.
pub open spec fn generated_refs(v: Seq<PlannedTarget>) -> Seq<Seq<char>> {
    v.filter(|t: PlannedTarget| t.generated).map_values(|t: PlannedTarget| t.reference@)
}

/// Why selecting slice `slice_id` of the candidate plan `digest` is refused,
/// in the order the checks are made: a stale basis, a selection locked by an
/// approval, no request, no candidate plan, a candidate plan other than the
/// session's, an unknown slice, a replan that fails or disagrees with the
/// candidate, editable targets with several transitions, a slice that is not
/// selectable, and a target boundary that conflicts or is empty.
pub open spec fn selection_refusal(
    basis_refusal: Option<Seq<char>>,
    locked: bool,
    has_request: bool,
    plan_digest: Option<Seq<char>>,
    digest: Seq<char>,
    slices: Seq<SelectableSlice>,
    slice_id: Seq<char>,
    canonical: CanonicalSlice,
    selectable: bool,
    operation: WorkOperation,
) -> Option<(u16, Seq<char>, Seq<char>)> {
    if basis_refusal is Some {
        Some((409, "stale-basis"@, basis_refusal->0))
    } else if locked {
        Some((409, "selection-locked"@, "slice selection is locked after approval"@))
    } else if !has_request {
        Some((400, Seq::empty(), "no work request is available"@))
    } else if plan_digest is None {
        Some((400, Seq::empty(), "no candidate work plan is available"@))
    } else if plan_digest->0 != digest {
        Some((409, "stale-candidate-plan"@, "candidate plan digest is stale"@))
    } else if first_slice(slices, slice_id) is None {
        Some((404, "unknown-slice"@, "the requested execution slice is not in the candidate plan"@))
    } else {
        let c = slices[first_slice(slices, slice_id)->0];
        match canonical {
            CanonicalSlice::ReplanFailed(m) => Some((409, "replan-failed"@, m@)),
            CanonicalSlice::Missing => Some(
                (409, "non-canonical-slice"@, "the candidate slice is not present in the canonical planner output"@),
            ),
            CanonicalSlice::Differs => Some(
                (409, "non-canonical-slice"@, "the candidate slice differs from the canonical planner output"@),
            ),
            CanonicalSlice::Same => if !homogeneous(target_transitions(c.editable@)) {
                Some((422, "mixed-transition"@, "the selected slice contains multiple editable transitions"@))
            } else if !selectable {
                Some((422, "non-selectable-slice"@, "the selected slice is not selectable"@))
            } else if !all_consistent(slice_keys(c)) {
                Some(
                    (422, "mixed-transition"@, "the selected slice derives conflicting transitions for one exact target"@),
                )
            } else if slice_keys(c).len() == 0 && operation != WorkOperation::Investigate {
                Some((422, "non-selectable-slice"@, "the selected slice has no exact target boundary"@))
            } else {
                None
            },
        }
    }
}

fn slicing(status: u16, code: &str, message: &str) -> (r: SlicingRefusal)
    ensures
        slicing_view(r) == (status, code@, message@),
{
    SlicingRefusal { status, code: owned(code), message: owned(message) }
}

fn copy_strs(v: &Vec<String>) -> (r: Vec<String>)
    ensures
        strs(r@) == strs(v@),
{
    let mut r: Vec<String> = Vec::new();
    let mut k: usize = 0;
    while k < v.len()
        invariant
            k <= v.len(),
            r@.len() == k,
            forall|j: int| 0 <= j < k ==> (#[trigger] r@[j])@ == v@[j]@,
        decreases v.len() - k,
    {
        r.push(owned(v[k].as_str()));
        k = k + 1;
    }
    assert(strs(r@) =~= strs(v@));
    r
}

fn generated_of(v: &Vec<PlannedTarget>) -> (r: Vec<String>)
    ensures
        strs(r@) == generated_refs(v@),
{
    let ghost p = |t: PlannedTarget| t.generated;
    let ghost f = |t: PlannedTarget| t.reference@;
    let mut r: Vec<String> = Vec::new();
    let mut k: usize = 0;
    assert(v@.take(0).filter(p) =~= Seq::<PlannedTarget>::empty()) by {
        v@.take(0).lemma_filter_len(p);
    }
    while k < v.len()
        invariant
            k <= v.len(),
            p == (|t: PlannedTarget| t.generated),
            f == (|t: PlannedTarget| t.reference@),
            strs(r@) == v@.take(k as int).filter(p).map_values(f),
        decreases v.len() - k,
    {
        let ghost before = v@.take(k as int);
        proof {
            assert(v@.take(k + 1) =~= before.push(v@[k as int]));
            before.lemma_filter_push(v@[k as int], p);
        }
        if v[k].generated {
            let ghost r0 = r@;
            let item = owned(v[k].reference.as_str());
            r.push(item);
            proof {
                let fl = before.filter(p);
                assert(strs(r@) =~= strs(r0).push(item@));
                assert(fl.push(v@[k as int]).map_values(f) =~= fl.map_values(f).push(f(v@[k as int])));
                assert(strs(r@) =~= fl.push(v@[k as int]).map_values(f));
            }
        } else {
            proof {
                assert(strs(r@) =~= before.filter(p).map_values(f));
            }
        }
        k = k + 1;
    }
    assert(v@.take(k as int) =~= v@);
    r
}

/// The first slice with id `id`, if any.
fn find_slice(slices: &Vec<SelectableSlice>, id: &str) -> (r: Option<usize>)
    ensures
        match r {
            Some(k) => first_slice(slices@, id@) == Some(k as int) && k < slices@.len(),
            None => first_slice(slices@, id@) is None,
        },
{
    let mut k: usize = 0;
    while k < slices.len()
        invariant
            k <= slices.len(),
            forall|j: int| 0 <= j < k ==> slices@[j].id@ != id@,
        decreases slices.len() - k,
    {
        if str_eq(slices[k].id.as_str(), id) {
            proof {
                let w = choose|w: int|
                    0 <= w < slices@.len() && slices@[w].id@ == id@ && forall|j: int| 0 <= j < w ==> slices@[j].id@ != id@;
                if w < k {
                    assert(slices@[w].id@ != id@);
                } else if w > k {
                    assert(slices@[k as int].id@ != id@);
                }
            }
            return Some(k);
        }
        k = k + 1;
    }
    None
}

/// Decides whether slice `slice_id` of the candidate plan `digest` can be
/// selected, and if so the request it becomes. `basis_refusal` is the
/// refusal of the mutation basis, if any; `locked` whether an approval of
/// the plan locks selection; `plan_digest` and `slices` the session's
/// candidate plan; `canonical` what the planner's canonical plan holds of
/// the slice; `selectable` the verdict on the slice as a split candidate.
pub fn select_slice_decision(
    basis_refusal: Option<String>,
    locked: bool,
    has_request: bool,
    plan_digest: Option<String>,
    digest: &str,
    slices: &Vec<SelectableSlice>,
    slice_id: &str,
    canonical: CanonicalSlice,
    selectable: bool,
    operation: WorkOperation,
) -> (r: Result<SelectedRequestDraft, SlicingRefusal>)
    ensures
        ({
            let refusal = selection_refusal(
                match basis_refusal {
                    Some(m) => Some(m@),
                    None => None,
                },
                locked,
                has_request,
                match plan_digest {
                    Some(d) => Some(d@),
                    None => None,
                },
                digest@,
                slices@,
                slice_id@,
                canonical,
                selectable,
                operation,
            );
            &&& (r is Err <==> refusal is Some)
            &&& r matches Err(e) ==> refusal == Some(slicing_view(e))
            &&& r matches Ok(d) ==> {
                let c = slices@[first_slice(slices@, slice_id@)->0];
                &&& exact_boundary(slice_keys(c), requested_keys(d.requested_targets@))
                &&& d.max_slices == 1 && d.exact_scope
                &&& strs(d.exact_generated_targets@) == generated_refs(c.readonly@)
                &&& strs(d.exact_contracts@) == strs(c.contracts@)
            }
        }),
{
    if let Some(m) = basis_refusal {
        return Err(SlicingRefusal { status: 409, code: owned("stale-basis"), message: m });
    }
    if locked {
        return Err(slicing(409, "selection-locked", "slice selection is locked after approval"));
    }
    if !has_request {
        proof {
            reveal_strlit("");
        }
        return Err(slicing(400, "", "no work request is available"));
    }
    match &plan_digest {
        None => {
            proof {
                reveal_strlit("");
            }
            return Err(slicing(400, "", "no candidate work plan is available"));
        },
        Some(d) => {
            if !str_eq(d.as_str(), digest) {
                return Err(slicing(409, "stale-candidate-plan", "candidate plan digest is stale"));
            }
        },
    }
    let k = match find_slice(slices, slice_id) {
        Some(k) => k,
        None => {
            return Err(
                slicing(404, "unknown-slice", "the requested execution slice is not in the candidate plan"),
            );
        },
    };
    let c = &slices[k];
    match canonical {
        CanonicalSlice::ReplanFailed(m) => {
            return Err(SlicingRefusal { status: 409, code: owned("replan-failed"), message: m });
        },
        CanonicalSlice::Missing => {
            return Err(
                slicing(
                    409,
                    "non-canonical-slice",
                    "the candidate slice is not present in the canonical planner output",
                ),
            );
        },
        CanonicalSlice::Differs => {
            return Err(
                slicing(409, "non-canonical-slice", "the candidate slice differs from the canonical planner output"),
            );
        },
        CanonicalSlice::Same => {},
    }
    if check_editable_transitions(&c.editable).is_err() {
        return Err(slicing(422, "mixed-transition", "the selected slice contains multiple editable transitions"));
    }
    if !selectable {
        return Err(slicing(422, "non-selectable-slice", "the selected slice is not selectable"));
    }
    let requested = match slice_requested_targets(&c.editable, &c.verification, &c.readonly, operation) {
        Ok(v) => v,
        Err(e) => {
            let code = e.code();
            let message = e.message();
            return Err(slicing(422, code, message));
        },
    };
    Ok(
        SelectedRequestDraft {
            requested_targets: requested,
            max_slices: 1,
            exact_scope: true,
            exact_generated_targets: generated_of(&c.readonly),
            exact_contracts: copy_strs(&c.contracts),
        },
    )
}

// ---------------------------------------------------------------------------
// After the replan

/// What replanning the selected request gave back: whether the plan is
/// ready, and its slices.
#[derive(Debug)]
pub struct ReplanOutcome {
    pub ready: bool,
    pub slices: Vec<SelectableSlice>,
}

/// Two target boundaries are the same execution boundary: the same targets
/// in the same order.
pub open spec fn boundaries_match(a: Seq<PlannedTarget>, b: Seq<PlannedTarget>) -> bool {
    a.len() == b.len() && forall|k: int|
        0 <= k < a.len() ==> (#[trigger] a[k]).reference@ == b[k].reference@ && a[k].transition
            == b[k].transition && a[k].generated == b[k].generated
}

/// Whether two target boundaries are the same execution boundary.
pub fn target_boundaries_match(a: &Vec<PlannedTarget>, b: &Vec<PlannedTarget>) -> (r: bool)
    ensures
        r == boundaries_match(a@, b@),
{
    if a.len() != b.len() {
        return false;
    }
    let mut k: usize = 0;
    while k < a.len()
        invariant
            k <= a.len(),
            a.len() == b.len(),
            forall|j: int|
                0 <= j < k ==> (#[trigger] a@[j]).reference@ == b@[j].reference@ && a@[j].transition
                    == b@[j].transition && a@[j].generated == b@[j].generated,
        decreases a.len() - k,
    {
        if !str_eq(a[k].reference.as_str(), b[k].reference.as_str()) || a[k].transition != b[k].transition
            || a[k].generated != b[k].generated {
            return false;
        }
        k = k + 1;
    }
    true
}

fn strings_equal(a: &Vec<String>, b: &Vec<String>) -> (r: bool)
    ensures
        r == (strs(a@) == strs(b@)),
{
    if a.len() != b.len() {
        proof {
            assert(strs(a@).len() != strs(b@).len());
        }
        return false;
    }
    let mut k: usize = 0;
    while k < a.len()
        invariant
            k <= a.len(),
            a.len() == b.len(),
            forall|j: int| 0 <= j < k ==> a@[j]@ == b@[j]@,
        decreases a.len() - k,
    {
        if !str_eq(a[k].as_str(), b[k].as_str()) {
            proof {
                assert(strs(a@)[k as int] != strs(b@)[k as int]);
            }
            return false;
        }
        k = k + 1;
    }
    assert(strs(a@) =~= strs(b@));
    true
}

/// Why the replan of a selected slice is refused, in the order the checks
/// are made: the planner failed; it gave back other than one ready slice;
/// that slice's boundary or contracts differ from the candidate's; or the
/// session's candidate plan changed meanwhile.
pub open spec fn replan_refusal(
    replan: Result<ReplanOutcome, String>,
    candidate: SelectableSlice,
    plan_digest: Option<Seq<char>>,
    digest: Seq<char>,
) -> Option<(u16, Seq<char>, Seq<char>)> {
    match replan {
        Err(m) => Some((422, "replan-failed"@, m@)),
        Ok(o) => if !o.ready || o.slices@.len() != 1 {
            Some((422, "replan-failed"@, "selected slice could not be replanned as one ready slice"@))
        } else {
            let s = o.slices@[0];
            if !boundaries_match(s.editable@, candidate.editable@) || !boundaries_match(
                s.verification@,
                candidate.verification@,
            ) || !boundaries_match(s.readonly@, candidate.readonly@) || strs(s.contracts@) != strs(
                candidate.contracts@,
            ) {
                Some((409, "scope-drift"@, "the selected execution boundary changed during canonical replan"@))
            } else if plan_digest != Some(digest) {
                Some((409, "stale-candidate-plan"@, "candidate plan changed during selection"@))
            } else {
                None
            }
        },
    }
}

/// Checks what replanning the selected request gave back against the
/// candidate slice; on success, the id of the one replanned slice, which
/// the session then selects.
pub fn check_replanned_slice(
    replan: Result<ReplanOutcome, String>,
    candidate: &SelectableSlice,
    plan_digest: Option<String>,
    digest: &str,
) -> (r: Result<String, SlicingRefusal>)
    ensures
        ({
            let refusal = replan_refusal(
                replan,
                *candidate,
                match plan_digest {
                    Some(d) => Some(d@),
                    None => None,
                },
                digest@,
            );
            &&& (r is Err <==> refusal is Some)
            &&& r matches Err(e) ==> refusal == Some(slicing_view(e))
            &&& r matches Ok(id) ==> replan matches Ok(o) && id@ == o.slices@[0].id@
        }),
{
    let outcome = match replan {
        Err(m) => {
            return Err(SlicingRefusal { status: 422, code: owned("replan-failed"), message: m });
        },
        Ok(o) => o,
    };
    if !outcome.ready || outcome.slices.len() != 1 {
        return Err(slicing(422, "replan-failed", "selected slice could not be replanned as one ready slice"));
    }
    let s = &outcome.slices[0];
    if !target_boundaries_match(&s.editable, &candidate.editable) || !target_boundaries_match(
        &s.verification,
        &candidate.verification,
    ) || !target_boundaries_match(&s.readonly, &candidate.readonly) || !strings_equal(
        &s.contracts,
        &candidate.contracts,
    ) {
        return Err(
            slicing(409, "scope-drift", "the selected execution boundary changed during canonical replan"),
        );
    }
    let current = match &plan_digest {
        Some(d) => str_eq(d.as_str(), digest),
        None => false,
    };
    if !current {
        return Err(slicing(409, "stale-candidate-plan", "candidate plan changed during selection"));
    }
    Ok(owned(s.id.as_str()))
}

// ---------------------------------------------------------------------------
// Laws of selection

/// Two boundaries match only when, position by position, their targets have
/// the same reference, the same transition and the same generated flag; and
/// a replan that gives back one ready slice whose editable, verification or
/// read-only targets differ from the candidate's at some position, in
/// reference, transition or generated flag, is refused as scope drift,
/// whatever the session's plan.
pub proof fn lemma_boundary_changes_are_scope_drift(
    replan: Result<ReplanOutcome, String>,
    candidate: SelectableSlice,
    plan_digest: Option<Seq<char>>,
    digest: Seq<char>,
    k: int,
)
    ensures
        forall|a: Seq<PlannedTarget>, b: Seq<PlannedTarget>, j: int|
            #![trigger boundaries_match(a, b), a[j]]
            boundaries_match(a, b) && 0 <= j < a.len() ==> a.len() == b.len() && same_target(a[j], b[j]),
        ({
            &&& replan matches Ok(o)
            &&& o.ready && o.slices@.len() == 1
            &&& {
                let s = o.slices@[0];
                ||| (0 <= k < s.editable@.len() && k < candidate.editable@.len() && !same_target(
                    s.editable@[k],
                    candidate.editable@[k],
                ))
                ||| (0 <= k < s.verification@.len() && k < candidate.verification@.len() && !same_target(
                    s.verification@[k],
                    candidate.verification@[k],
                ))
                ||| (0 <= k < s.readonly@.len() && k < candidate.readonly@.len() && !same_target(
                    s.readonly@[k],
                    candidate.readonly@[k],
                ))
            }
        }) ==> replan_refusal(replan, candidate, plan_digest, digest) == Some(
            (409u16, "scope-drift"@, "the selected execution boundary changed during canonical replan"@),
        ),
{
}

/// Two planned targets are the same target of an execution boundary.
pub open spec fn same_target(a: PlannedTarget, b: PlannedTarget) -> bool {
    a.reference@ == b.reference@ && a.transition == b.transition && a.generated == b.generated
}

} // verus!
