//! The review of a candidate execution slice: whether its verification
//! targets cover its editable targets for the origin criterion, what blocks
//! it, and whether it can be selected.
use vstd::prelude::*;
use crate::anchors::AnchorRelation;
use crate::capabilities::strs;
use crate::catalog::TargetClaim;
use crate::completeness::{candidate_target_is_valid, target_valid, IndexTargets, SliceTarget, TargetLifecycle};
use crate::selection::{TargetTransition, WorkOperation};
use crate::sorted::SortedStrings;
use crate::split::{SliceBudgetUsage, SlicingLimits};
use crate::text::{append, contains_seq, owned, str_eq};

verus! {

/// The verification claim a planned target carries.
pub struct VerificationClaim {
    pub criterion: String,
    pub target: String,
}

/// A planned target of a candidate slice.
pub struct ReviewTarget {
    /// The canonical text of the exact target reference.
    pub reference: String,
    /// The anchor of the binding the target belongs to.
    pub binding: String,
    /// The item the binding belongs to.
    pub item: String,
    pub lifecycle: TargetLifecycle,
    pub transition: TargetTransition,
    pub resolved_path: String,
    pub verification_claim: Option<VerificationClaim>,
}

/// An artifact target of the index: whether it is absent, and its claims.
pub struct ArtifactFacts {
    pub reference: String,
    pub absent: bool,
    pub claims: Vec<TargetClaim>,
}

/// What the review reads of the specification index.
pub struct ReviewIndex {
    pub targets: IndexTargets,
    /// The bindings whose role is verification.
    pub verification_bindings: SortedStrings,
    /// The items whose status is implemented.
    pub implemented_items: SortedStrings,
    pub artifacts: Vec<ArtifactFacts>,
    /// For a target, the active verification targets that cover it.
    pub verification_by_target: Vec<AnchorRelation>,
    /// For a target, every verification target that covers it.
    pub all_verification_by_target: Vec<AnchorRelation>,
}

/// A target the request asks for.
pub struct RequestedReviewTarget {
    pub reference: String,
    pub transition: TargetTransition,
}

/// Whether the request explicitly adds the verification target `reference`
/// of binding `binding`.
pub open spec fn requested_verification_add(
    requested: Seq<RequestedReviewTarget>,
    index: ReviewIndex,
    reference: Seq<char>,
    binding: Seq<char>,
) -> bool {
    index.verification_bindings@.contains(binding) && exists|k: int|
        0 <= k < requested.len() && (#[trigger] requested[k]).reference@ == reference && requested[k].transition
            is Add
}

fn requested_verification_add_exec(
    requested: &Vec<RequestedReviewTarget>,
    index: &ReviewIndex,
    reference: &str,
    binding: &str,
) -> (r: bool)
    ensures
        r == requested_verification_add(requested@, *index, reference@, binding@),
{
    let mut k: usize = 0;
    let mut found = false;
    while k < requested.len()
        invariant
            k <= requested.len(),
            found == exists|q: int|
                0 <= q < k && (#[trigger] requested@[q]).reference@ == reference@ && requested@[q].transition is Add,
        decreases requested.len() - k,
    {
        if str_eq(requested[k].reference.as_str(), reference) && matches!(
            requested[k].transition,
            TargetTransition::Add
        ) {
            found = true;
        }
        k = k + 1;
    }
    found && index.verification_bindings.contains(binding)
}

/// `k` is the artifact of the index for `reference` (its first entry).
pub open spec fn artifact_at(arts: Seq<ArtifactFacts>, reference: Seq<char>, k: int) -> bool {
    0 <= k < arts.len() && arts[k].reference@ == reference && forall|j: int|
        0 <= j < k ==> (#[trigger] arts[j]).reference@ != reference
}

/// Whether a claim verifies `criterion` and names what it covers.
pub open spec fn verifies_with_covers(c: TargetClaim, criterion: Seq<char>) -> bool {
    match c {
        TargetClaim::Verifies { criterion: actual, covers } => actual@ == criterion && covers@.len() > 0,
        _ => false,
    }
}

/// How many of `claims` verify `criterion` and name what they cover.
pub open spec fn verifying_count(claims: Seq<TargetClaim>, criterion: Seq<char>) -> nat
    decreases claims.len(),
{
    if claims.len() == 0 {
        0
    } else {
        verifying_count(claims.drop_last(), criterion) + if verifies_with_covers(claims.last(), criterion) {
            1nat
        } else {
            0nat
        }
    }
}

/// Whether the planned verification target `t` verifies `criterion`: its
/// claim names the criterion and the target itself; its binding is a
/// verification binding; unless the request adds it, its item is
/// implemented and its artifact is not absent; and its artifact has
/// exactly one claim that verifies the criterion and names what it covers.
pub open spec fn verification_valid(
    t: ReviewTarget,
    requested: Seq<RequestedReviewTarget>,
    index: ReviewIndex,
    criterion: Seq<char>,
) -> bool {
    let planned_add = requested_verification_add(requested, index, t.reference@, t.binding@);
    &&& t.verification_claim matches Some(c) && c.criterion@ == criterion && c.target@ == t.reference@
    &&& index.verification_bindings@.contains(t.binding@)
    &&& planned_add || index.implemented_items@.contains(t.item@)
    &&& exists|k: int|
        artifact_at(index.artifacts@, t.reference@, k) && (planned_add || !index.artifacts@[k].absent)
            && verifying_count(index.artifacts@[k].claims@, criterion) == 1
}

fn find_artifact(arts: &Vec<ArtifactFacts>, reference: &str) -> (r: Option<usize>)
    ensures
        match r {
            Some(k) => artifact_at(arts@, reference@, k as int),
            None => forall|k: int| !artifact_at(arts@, reference@, k),
        },
{
    let mut k: usize = 0;
    while k < arts.len()
        invariant
            k <= arts.len(),
            forall|j: int| 0 <= j < k ==> (#[trigger] arts@[j]).reference@ != reference@,
        decreases arts.len() - k,
    {
        if str_eq(arts[k].reference.as_str(), reference) {
            return Some(k);
        }
        k = k + 1;
    }
    None
}

fn count_verifying(claims: &Vec<TargetClaim>, criterion: &str) -> (r: usize)
    ensures
        r == verifying_count(claims@, criterion@),
{
    let mut n: usize = 0;
    let mut i: usize = 0;
    proof {
        assert(claims@.take(0) =~= Seq::<TargetClaim>::empty());
    }
    while i < claims.len()
        invariant
            i <= claims.len(),
            n <= i,
            n == verifying_count(claims@.take(i as int), criterion@),
        decreases claims.len() - i,
    {
        let hit = match &claims[i] {
            TargetClaim::Verifies { criterion: actual, covers } => str_eq(actual.as_str(), criterion) && covers.len()
                > 0,
            _ => false,
        };
        proof {
            assert(claims@.take(i + 1).drop_last() =~= claims@.take(i as int));
            assert(claims@.take(i + 1).last() == claims@[i as int]);
        }
        if hit {
            n = n + 1;
        }
        i = i + 1;
    }
    proof {
        assert(claims@.take(claims@.len() as int) =~= claims@);
    }
    n
}

/// Whether the planned verification target `t` verifies `criterion`.
pub fn verification_target_is_valid(
    index: &ReviewIndex,
    t: &ReviewTarget,
    requested: &Vec<RequestedReviewTarget>,
    criterion: &str,
) -> (r: bool)
    ensures
        r == verification_valid(*t, requested@, *index, criterion@),
{
    match &t.verification_claim {
        None => { return false; },
        Some(c) => {
            if !str_eq(c.criterion.as_str(), criterion) || !str_eq(c.target.as_str(), t.reference.as_str()) {
                return false;
            }
        },
    }
    if !index.verification_bindings.contains(t.binding.as_str()) {
        return false;
    }
    let planned_add = requested_verification_add_exec(requested, index, t.reference.as_str(), t.binding.as_str());
    if !planned_add && !index.implemented_items.contains(t.item.as_str()) {
        return false;
    }
    match find_artifact(&index.artifacts, t.reference.as_str()) {
        None => false,
        Some(k) => {
            proof {
                assert forall|k2: int| artifact_at(index.artifacts@, t.reference@, k2) implies k2 == k by {
                    if k2 < k {
                        assert(index.artifacts@[k2].reference@ != t.reference@);
                    } else if k2 > k {
                        assert(index.artifacts@[k as int].reference@ != t.reference@);
                    }
                }
            }
            let a = &index.artifacts[k];
            if !planned_add && a.absent {
                return false;
            }
            count_verifying(&a.claims, criterion) == 1
        },
    }
}

/// `k` is the entry of `rel` for `a` (its first entry).
pub open spec fn relation_at(rel: Seq<AnchorRelation>, a: Seq<char>, k: int) -> bool {
    0 <= k < rel.len() && rel[k].anchor@ == a && forall|j: int| 0 <= j < k ==> (#[trigger] rel[j]).anchor@ != a
}

/// Whether `rel` lists `v` for `e`.
pub open spec fn listed_for(rel: Seq<AnchorRelation>, e: Seq<char>, v: Seq<char>) -> bool {
    exists|k: int| relation_at(rel, e, k) && strs(rel[k].related@).contains(v)
}

/// Whether verification target `v` covers editable target `e`: through
/// every known verification when the request adds `v`, through the active
/// ones otherwise.
pub open spec fn covered_by(
    e: ReviewTarget,
    v: ReviewTarget,
    requested: Seq<RequestedReviewTarget>,
    index: ReviewIndex,
) -> bool {
    if requested_verification_add(requested, index, v.reference@, v.binding@) {
        listed_for(index.all_verification_by_target@, e.reference@, v.reference@)
    } else {
        listed_for(index.verification_by_target@, e.reference@, v.reference@)
    }
}

/// Whether the slice's verification covers its editable targets: there is
/// one, and each is added by the request as a verification or covered by a
/// verification target that verifies the criterion.
pub open spec fn verification_covers(
    editable: Seq<ReviewTarget>,
    verification: Seq<ReviewTarget>,
    requested: Seq<RequestedReviewTarget>,
    index: ReviewIndex,
    criterion: Seq<char>,
) -> bool {
    editable.len() > 0 && forall|i: int|
        0 <= i < editable.len() ==> requested_verification_add(
            requested,
            index,
            (#[trigger] editable[i]).reference@,
            editable[i].binding@,
        ) || exists|j: int|
            0 <= j < verification.len() && verification_valid(verification[j], requested, index, criterion)
                && covered_by(editable[i], #[trigger] verification[j], requested, index)
}

fn listed_for_exec(rel: &Vec<AnchorRelation>, e: &str, v: &str) -> (r: bool)
    ensures
        r == listed_for(rel@, e@, v@),
{
    let mut k: usize = 0;
    while k < rel.len()
        invariant
            k <= rel.len(),
            forall|j: int| 0 <= j < k ==> (#[trigger] rel@[j]).anchor@ != e@,
        decreases rel.len() - k,
    {
        if str_eq(rel[k].anchor.as_str(), e) {
            proof {
                assert(relation_at(rel@, e@, k as int));
                assert forall|k2: int| relation_at(rel@, e@, k2) implies k2 == k by {
                    if k2 < k {
                        assert(rel@[k2].anchor@ != e@);
                    } else if k2 > k {
                        assert(rel@[k as int].anchor@ != e@);
                    }
                }
            }
            return crate::completeness::contains_string(&rel[k].related, v);
        }
        k = k + 1;
    }
    false
}

/// Whether the slice's verification targets cover its editable targets for
/// the origin criterion.
pub fn verification_covers_editable_targets(
    index: &ReviewIndex,
    editable: &Vec<ReviewTarget>,
    verification: &Vec<ReviewTarget>,
    requested: &Vec<RequestedReviewTarget>,
    criterion: &str,
) -> (r: bool)
    ensures
        r == verification_covers(editable@, verification@, requested@, *index, criterion@),
{
    // Which verification targets verify the criterion, and whether the
    // request adds each.
    let mut valid: Vec<bool> = Vec::new();
    let mut added: Vec<bool> = Vec::new();
    let mut j: usize = 0;
    while j < verification.len()
        invariant
            j <= verification.len(),
            valid@.len() == j,
            added@.len() == j,
            forall|q: int| 0 <= q < j ==> #[trigger] valid@[q] == verification_valid(verification@[q], requested@, *index, criterion@),
            forall|q: int|
                0 <= q < j ==> #[trigger] added@[q] == requested_verification_add(
                    requested@,
                    *index,
                    verification@[q].reference@,
                    verification@[q].binding@,
                ),
        decreases verification.len() - j,
    {
        valid.push(verification_target_is_valid(index, &verification[j], requested, criterion));
        added.push(requested_verification_add_exec(
            requested,
            index,
            verification[j].reference.as_str(),
            verification[j].binding.as_str(),
        ));
        j = j + 1;
    }
    if editable.len() == 0 {
        return false;
    }
    let mut i: usize = 0;
    while i < editable.len()
        invariant
            i <= editable.len(),
            valid@.len() == verification@.len(),
            added@.len() == verification@.len(),
            forall|q: int| 0 <= q < verification@.len() ==> #[trigger] valid@[q] == verification_valid(verification@[q], requested@, *index, criterion@),
            forall|q: int|
                0 <= q < verification@.len() ==> #[trigger] added@[q] == requested_verification_add(
                    requested@,
                    *index,
                    verification@[q].reference@,
                    verification@[q].binding@,
                ),
            forall|p: int|
                0 <= p < i ==> requested_verification_add(
                    requested@,
                    *index,
                    (#[trigger] editable@[p]).reference@,
                    editable@[p].binding@,
                ) || exists|q: int|
                    0 <= q < verification@.len() && verification_valid(verification@[q], requested@, *index, criterion@)
                        && covered_by(editable@[p], #[trigger] verification@[q], requested@, *index),
        decreases editable.len() - i,
    {
        let e = &editable[i];
        let own = requested_verification_add_exec(requested, index, e.reference.as_str(), e.binding.as_str());
        if !own {
            let mut found = false;
            let mut q: usize = 0;
            while q < verification.len()
                invariant
                    q <= verification.len(),
                    valid@.len() == verification@.len(),
                    added@.len() == verification@.len(),
                    forall|x: int| 0 <= x < verification@.len() ==> #[trigger] valid@[x] == verification_valid(verification@[x], requested@, *index, criterion@),
                    forall|x: int|
                        0 <= x < verification@.len() ==> #[trigger] added@[x] == requested_verification_add(
                            requested@,
                            *index,
                            verification@[x].reference@,
                            verification@[x].binding@,
                        ),
                    found == exists|x: int|
                        0 <= x < q && verification_valid(verification@[x], requested@, *index, criterion@) && covered_by(
                            *e,
                            #[trigger] verification@[x],
                            requested@,
                            *index,
                        ),
                decreases verification.len() - q,
            {
                if valid[q] {
                    let v = &verification[q];
                    let covers = if added[q] {
                        listed_for_exec(&index.all_verification_by_target, e.reference.as_str(), v.reference.as_str())
                    } else {
                        listed_for_exec(&index.verification_by_target, e.reference.as_str(), v.reference.as_str())
                    };
                    if covers {
                        found = true;
                    }
                }
                q = q + 1;
            }
            if !found {
                return false;
            }
        }
        i = i + 1;
    }
    true
}

// ---------------------------------------------------------------------------
// Blockers

/// A diagnostic of a candidate plan.
pub struct PlanDiagnostic {
    pub rule_id: String,
    pub message: String,
}

/// Why a candidate slice cannot be selected.
#[derive(Debug, Clone)]
pub struct Blocker {
    pub rule_id: String,
    pub message: String,
    pub path: String,
}

pub open spec fn blocker_model(b: Blocker) -> (Seq<char>, Seq<char>, Seq<char>) {
    (b.rule_id@, b.message@, b.path@)
}

pub open spec fn blockers_model(v: Seq<Blocker>) -> Seq<(Seq<char>, Seq<char>, Seq<char>)> {
    v.map_values(|b: Blocker| blocker_model(b))
}

/// The candidate plan as the review reads it.
pub struct PlanFacts {
    pub ready: bool,
    pub diagnostics: Vec<PlanDiagnostic>,
    /// The implementation targets of the plan's origin closure.
    pub closure_implementation_targets: Vec<String>,
}

/// A candidate slice as the review reads it.
pub struct SliceCandidate {
    pub blockers: Vec<Blocker>,
    pub low_confidence: bool,
    pub editable_targets: Vec<ReviewTarget>,
    pub verification_targets: Vec<ReviewTarget>,
    pub readonly_context: Vec<ReviewTarget>,
    pub budget: SliceBudgetUsage,
}

/// The work request as the review reads it.
pub struct RequestFacts {
    pub operation: WorkOperation,
    pub requested_targets: Vec<RequestedReviewTarget>,
    /// The targets the origin names.
    pub origin_targets: Vec<String>,
    /// The origin's criterion.
    pub criterion: String,
}

/// A blocked plan may still be re-planned into this slice: the plan is not
/// ready, the slice has no blocker of its own, and the planner asked for
/// slices.
pub open spec fn can_replan(plan: PlanFacts, slice: SliceCandidate) -> bool {
    !plan.ready && slice.blockers@.len() == 0 && exists|k: int|
        0 <= k < plan.diagnostics@.len() && (#[trigger] plan.diagnostics@[k]).rule_id@ == "MITASE-WORK-003"@
            && contains_seq(crate::text::ascii_lowercase(plan.diagnostics@[k].message@), "slices"@)
}

/// Whether the blocked plan may be re-planned into `slice`.
pub fn plan_can_replan_candidate(plan: &PlanFacts, slice: &SliceCandidate) -> (r: bool)
    ensures
        r == can_replan(*plan, *slice),
{
    if plan.ready || slice.blockers.len() > 0 {
        return false;
    }
    let mut k: usize = 0;
    while k < plan.diagnostics.len()
        invariant
            k <= plan.diagnostics.len(),
            !plan.ready,
            slice.blockers@.len() == 0,
            forall|j: int|
                0 <= j < k ==> !((#[trigger] plan.diagnostics@[j]).rule_id@ == "MITASE-WORK-003"@ && contains_seq(
                    crate::text::ascii_lowercase(plan.diagnostics@[j].message@),
                    "slices"@,
                )),
        decreases plan.diagnostics.len() - k,
    {
        let d = &plan.diagnostics[k];
        if str_eq(d.rule_id.as_str(), "MITASE-WORK-003") {
            let lower = crate::text::ascii_lowercase_exec(&crate::text::chars_of(d.message.as_str()));
            let needle = crate::text::chars_of("slices");
            if crate::text::contains_exec(&lower, &needle) {
                proof {
                    assert(plan.diagnostics@[k as int].rule_id@ == "MITASE-WORK-003"@);
                    assert(contains_seq(crate::text::ascii_lowercase(plan.diagnostics@[k as int].message@), "slices"@));
                }
                return true;
            }
        }
        k = k + 1;
    }
    false
}

pub open spec fn within_limits(b: SliceBudgetUsage, l: SlicingLimits) -> bool {
    b.editable_files <= l.max_editable_files && b.editable_symbols <= l.max_editable_symbols
        && b.verification_targets <= l.max_verification_targets && b.readonly_targets <= l.max_readonly_targets
        && b.total_bytes <= l.max_total_bytes
}

/// Whether a slice's budget keeps within the configured limits.
pub fn slice_budget_within_limits(budget: &SliceBudgetUsage, limits: &SlicingLimits) -> (r: bool)
    ensures
        r == within_limits(*budget, *limits),
{
    budget.editable_files <= limits.max_editable_files && budget.editable_symbols <= limits.max_editable_symbols
        && budget.verification_targets <= limits.max_verification_targets && budget.readonly_targets
        <= limits.max_readonly_targets && budget.total_bytes <= limits.max_total_bytes
}

pub open spec fn as_slice_target(t: ReviewTarget) -> SliceTarget {
    SliceTarget { reference: t.reference, lifecycle: t.lifecycle, transition: t.transition }
}

/// All targets of the slice: editable, verification, read-only.
pub open spec fn review_targets(s: SliceCandidate) -> Seq<ReviewTarget> {
    s.editable_targets@ + s.verification_targets@ + s.readonly_context@
}

/// The lifecycle blockers of `ts`: one per target without a valid planned
/// lifecycle, in order.
pub open spec fn lifecycle_blockers(ts: Seq<ReviewTarget>, index: ReviewIndex) -> Seq<(Seq<char>, Seq<char>, Seq<char>)>
    decreases ts.len(),
{
    if ts.len() == 0 {
        Seq::empty()
    } else {
        lifecycle_blockers(ts.drop_last(), index) + if target_valid(as_slice_target(ts.last()), index.targets) {
            Seq::empty()
        } else {
            seq![
                (
                    "target-lifecycle"@,
                    "candidate target "@ + ts.last().reference@
                        + " has no valid exact pre-state or planned lifecycle artifact"@,
                    ts.last().resolved_path@,
                ),
            ]
        }
    }
}

pub open spec fn when(c: bool, b: (Seq<char>, Seq<char>, Seq<char>)) -> Seq<(Seq<char>, Seq<char>, Seq<char>)> {
    if c {
        seq![b]
    } else {
        Seq::empty()
    }
}

/// Whether the plan's closure implements every target the origin names.
pub open spec fn origin_in_closure(plan: PlanFacts, request: RequestFacts) -> bool {
    forall|j: int|
        0 <= j < request.origin_targets@.len() ==> strs(plan.closure_implementation_targets@).contains(
            (#[trigger] request.origin_targets@[j])@,
        )
}

/// What blocks a candidate slice, in order: its own blockers; a blocked
/// plan that cannot be re-planned; low confidence; no editable or no
/// verification target (unless investigating); each target without a valid
/// planned lifecycle; an incomplete origin closure; verification that does
/// not cover the editable targets (unless investigating); an origin target
/// outside the plan's closure; a budget over the limits.
pub open spec fn candidate_blockers(
    plan: PlanFacts,
    slice: SliceCandidate,
    request: RequestFacts,
    limits: SlicingLimits,
    index: ReviewIndex,
    closure_complete: bool,
) -> Seq<(Seq<char>, Seq<char>, Seq<char>)> {
    let investigate = request.operation is Investigate;
    let needs_review = !plan.ready && !can_replan(plan, slice) && !exists|k: int|
        0 <= k < slice.blockers@.len() && (#[trigger] slice.blockers@[k]).rule_id@ == "plan-needs-review"@;
    blockers_model(slice.blockers@) + when(
        needs_review,
        (
            "plan-needs-review"@,
            "the canonical candidate plan is blocked and cannot be selected"@,
            "work-plan"@,
        ),
    ) + when(
        slice.low_confidence,
        (
            "low-confidence-slice"@,
            "the candidate requires exact server review before it can be selected"@,
            "work-plan"@,
        ),
    ) + when(
        !investigate && slice.editable_targets@.len() == 0,
        ("missing-editable-target"@, "the candidate has no exact editable target"@, "work-plan"@),
    ) + when(
        !investigate && slice.verification_targets@.len() == 0,
        (
            "missing-verification-coverage"@,
            "the candidate has no exact verification target for its editable boundary"@,
            "work-plan"@,
        ),
    ) + lifecycle_blockers(review_targets(slice), index) + when(
        !closure_complete,
        (
            "missing-origin-closure"@,
            "the candidate does not retain a complete active implementation, verification, readonly, and contract closure"@,
            "work-plan"@,
        ),
    ) + when(
        !investigate && !verification_covers(
            slice.editable_targets@,
            slice.verification_targets@,
            request.requested_targets@,
            index,
            request.criterion@,
        ),
        (
            "missing-verification-coverage"@,
            "the candidate verification targets do not cover the exact origin criterion"@,
            "work-plan"@,
        ),
    ) + when(
        !origin_in_closure(plan, request),
        (
            "missing-origin-closure"@,
            "the candidate does not retain the complete implementation origin closure"@,
            "work-plan"@,
        ),
    ) + when(
        !within_limits(slice.budget, limits),
        ("budget-exceeded"@, "the candidate exceeds a configured execution limit"@, "work-plan"@),
    )
}

fn blocker(rule_id: &str, message: &str, path: &str) -> (r: Blocker)
    ensures
        blocker_model(r) == (rule_id@, message@, path@),
{
    Blocker { rule_id: owned(rule_id), message: owned(message), path: owned(path) }
}

fn copy_blocker(b: &Blocker) -> (r: Blocker)
    ensures
        blocker_model(r) == blocker_model(*b),
{
    Blocker { rule_id: b.rule_id.clone(), message: b.message.clone(), path: b.path.clone() }
}

fn push_when(out: &mut Vec<Blocker>, c: bool, rule_id: &str, message: &str, path: &str)
    ensures
        blockers_model(final(out)@) == blockers_model(old(out)@) + when(c, (rule_id@, message@, path@)),
{
    let ghost before = out@;
    if c {
        out.push(blocker(rule_id, message, path));
        proof {
            assert(blockers_model(out@) =~= blockers_model(before) + when(c, (rule_id@, message@, path@)));
        }
    } else {
        proof {
            assert(blockers_model(out@) =~= blockers_model(before) + when(c, (rule_id@, message@, path@)));
        }
    }
}

fn push_lifecycle_blockers(out: &mut Vec<Blocker>, ts: &Vec<ReviewTarget>, index: &ReviewIndex)
    ensures
        blockers_model(final(out)@) == blockers_model(old(out)@) + lifecycle_blockers(ts@, *index),
{
    let ghost start = blockers_model(out@);
    let mut i: usize = 0;
    proof {
        assert(ts@.take(0) =~= Seq::<ReviewTarget>::empty());
        assert(blockers_model(out@) =~= start + lifecycle_blockers(ts@.take(0), *index));
    }
    while i < ts.len()
        invariant
            i <= ts.len(),
            blockers_model(out@) == start + lifecycle_blockers(ts@.take(i as int), *index),
        decreases ts.len() - i,
    {
        let t = &ts[i];
        let st = SliceTarget { reference: t.reference.clone(), lifecycle: t.lifecycle, transition: t.transition };
        let ok = candidate_target_is_valid(&index.targets, &st);
        proof {
            assert(ts@.take(i + 1).drop_last() =~= ts@.take(i as int));
            assert(ts@.take(i + 1).last() == ts@[i as int]);
            assert(st == as_slice_target(ts@[i as int]));
        }
        let ghost before = out@;
        if !ok {
            let mut message = owned("candidate target ");
            append(&mut message, t.reference.as_str());
            append(&mut message, " has no valid exact pre-state or planned lifecycle artifact");
            out.push(Blocker { rule_id: owned("target-lifecycle"), message, path: t.resolved_path.clone() });
            proof {
                assert(blockers_model(out@) =~= blockers_model(before).push(
                    (
                        "target-lifecycle"@,
                        "candidate target "@ + ts@[i as int].reference@
                            + " has no valid exact pre-state or planned lifecycle artifact"@,
                        ts@[i as int].resolved_path@,
                    ),
                ));
            }
        }
        proof {
            assert(blockers_model(out@) =~= start + lifecycle_blockers(ts@.take(i + 1), *index));
        }
        i = i + 1;
    }
    proof {
        assert(ts@.take(ts@.len() as int) =~= ts@);
    }
}

fn has_rule(v: &Vec<Blocker>, rule_id: &str) -> (r: bool)
    ensures
        r == exists|k: int| 0 <= k < v@.len() && (#[trigger] v@[k]).rule_id@ == rule_id@,
{
    let mut k: usize = 0;
    while k < v.len()
        invariant
            k <= v.len(),
            forall|j: int| 0 <= j < k ==> (#[trigger] v@[j]).rule_id@ != rule_id@,
        decreases v.len() - k,
    {
        if str_eq(v[k].rule_id.as_str(), rule_id) {
            return true;
        }
        k = k + 1;
    }
    false
}

/// What blocks the candidate slice from being selected.  `closure_complete`
/// says whether the slice holds its plan's whole exact origin closure.
pub fn split_candidate_blockers(
    plan: &PlanFacts,
    slice: &SliceCandidate,
    request: &RequestFacts,
    limits: &SlicingLimits,
    index: &ReviewIndex,
    closure_complete: bool,
) -> (r: Vec<Blocker>)
    ensures
        blockers_model(r@) == candidate_blockers(*plan, *slice, *request, *limits, *index, closure_complete),
{
    let investigate = matches!(request.operation, WorkOperation::Investigate);
    let mut out: Vec<Blocker> = Vec::new();
    let mut k: usize = 0;
    while k < slice.blockers.len()
        invariant
            k <= slice.blockers.len(),
            blockers_model(out@) == blockers_model(slice.blockers@.take(k as int)),
        decreases slice.blockers.len() - k,
    {
        let ghost before = out@;
        out.push(copy_blocker(&slice.blockers[k]));
        proof {
            assert(blockers_model(out@) =~= blockers_model(before).push(blocker_model(slice.blockers@[k as int])));
            assert(blockers_model(slice.blockers@.take(k + 1)) =~= blockers_model(slice.blockers@.take(k as int)).push(
                blocker_model(slice.blockers@[k as int]),
            ));
            assert(blockers_model(out@) =~= blockers_model(slice.blockers@.take(k + 1)));
        }
        k = k + 1;
    }
    proof {
        assert(slice.blockers@.take(slice.blockers@.len() as int) =~= slice.blockers@);
    }
    let needs_review = !plan.ready && !plan_can_replan_candidate(plan, slice) && !has_rule(
        &slice.blockers,
        "plan-needs-review",
    );
    push_when(
        &mut out,
        needs_review,
        "plan-needs-review",
        "the canonical candidate plan is blocked and cannot be selected",
        "work-plan",
    );
    push_when(
        &mut out,
        slice.low_confidence,
        "low-confidence-slice",
        "the candidate requires exact server review before it can be selected",
        "work-plan",
    );
    push_when(
        &mut out,
        !investigate && slice.editable_targets.len() == 0,
        "missing-editable-target",
        "the candidate has no exact editable target",
        "work-plan",
    );
    push_when(
        &mut out,
        !investigate && slice.verification_targets.len() == 0,
        "missing-verification-coverage",
        "the candidate has no exact verification target for its editable boundary",
        "work-plan",
    );
    let ghost mid = blockers_model(out@);
    push_lifecycle_blockers(&mut out, &slice.editable_targets, index);
    push_lifecycle_blockers(&mut out, &slice.verification_targets, index);
    push_lifecycle_blockers(&mut out, &slice.readonly_context, index);
    proof {
        lemma_lifecycle_concat(slice.editable_targets@, slice.verification_targets@, *index);
        lemma_lifecycle_concat(slice.editable_targets@ + slice.verification_targets@, slice.readonly_context@, *index);
        assert(blockers_model(out@) =~= mid + lifecycle_blockers(review_targets(*slice), *index));
    }
    push_when(
        &mut out,
        !closure_complete,
        "missing-origin-closure",
        "the candidate does not retain a complete active implementation, verification, readonly, and contract closure",
        "work-plan",
    );
    let covers = !investigate && !verification_covers_editable_targets(
        index,
        &slice.editable_targets,
        &slice.verification_targets,
        &request.requested_targets,
        request.criterion.as_str(),
    );
    push_when(
        &mut out,
        covers,
        "missing-verification-coverage",
        "the candidate verification targets do not cover the exact origin criterion",
        "work-plan",
    );
    let pi = crate::capabilities::sorted_set_of(&plan.closure_implementation_targets);
    let mut named = true;
    let mut j: usize = 0;
    while j < request.origin_targets.len()
        invariant
            j <= request.origin_targets.len(),
            pi@.to_set() == strs(plan.closure_implementation_targets@).to_set(),
            named == forall|q: int|
                0 <= q < j ==> strs(plan.closure_implementation_targets@).contains((#[trigger] request.origin_targets@[q])@),
        decreases request.origin_targets.len() - j,
    {
        let c = pi.contains(request.origin_targets[j].as_str());
        proof {
            assert(strs(plan.closure_implementation_targets@).contains(request.origin_targets@[j as int]@)
                == strs(plan.closure_implementation_targets@).to_set().contains(request.origin_targets@[j as int]@));
        }
        if !c {
            named = false;
        }
        j = j + 1;
    }
    push_when(
        &mut out,
        !named,
        "missing-origin-closure",
        "the candidate does not retain the complete implementation origin closure",
        "work-plan",
    );
    push_when(
        &mut out,
        !slice_budget_within_limits(&slice.budget, limits),
        "budget-exceeded",
        "the candidate exceeds a configured execution limit",
        "work-plan",
    );
    out
}

proof fn lemma_lifecycle_concat(a: Seq<ReviewTarget>, b: Seq<ReviewTarget>, index: ReviewIndex)
    ensures
        lifecycle_blockers(a + b, index) == lifecycle_blockers(a, index) + lifecycle_blockers(b, index),
    decreases b.len(),
{
    if b.len() == 0 {
        assert(a + b =~= a);
        assert(lifecycle_blockers(a, index) + lifecycle_blockers(b, index) =~= lifecycle_blockers(a, index));
    } else {
        lemma_lifecycle_concat(a, b.drop_last(), index);
        assert((a + b).drop_last() =~= a + b.drop_last());
        assert((a + b).last() == b.last());
        assert(lifecycle_blockers(a + b, index) =~= lifecycle_blockers(a, index) + lifecycle_blockers(b, index));
    }
}

/// Whether a candidate slice can be selected: its plan is ready or can be
/// re-planned; no blocker but the plan review is left; its confidence is
/// not low; it has an editable target unless investigating; its budget
/// keeps within the limits; every target has a valid planned lifecycle; it
/// holds its whole origin closure; and unless investigating its
/// verification covers its editable targets.
pub open spec fn candidate_selectable(
    plan: PlanFacts,
    slice: SliceCandidate,
    request: RequestFacts,
    limits: SlicingLimits,
    index: ReviewIndex,
    closure_complete: bool,
    blockers: Seq<Blocker>,
) -> bool {
    let investigate = request.operation is Investigate;
    &&& plan.ready || can_replan(plan, slice)
    &&& forall|k: int| 0 <= k < blockers.len() ==> (#[trigger] blockers[k]).rule_id@ == "plan-needs-review"@
    &&& !slice.low_confidence
    &&& investigate || slice.editable_targets@.len() > 0
    &&& within_limits(slice.budget, limits)
    &&& forall|k: int|
        0 <= k < review_targets(slice).len() ==> target_valid(
            as_slice_target(#[trigger] review_targets(slice)[k]),
            index.targets,
        )
    &&& closure_complete
    &&& investigate || verification_covers(
        slice.editable_targets@,
        slice.verification_targets@,
        request.requested_targets@,
        index,
        request.criterion@,
    )
}

fn all_valid(ts: &Vec<ReviewTarget>, index: &ReviewIndex) -> (r: bool)
    ensures
        r == forall|k: int| 0 <= k < ts@.len() ==> target_valid(as_slice_target(#[trigger] ts@[k]), index.targets),
{
    let mut i: usize = 0;
    while i < ts.len()
        invariant
            i <= ts.len(),
            forall|k: int| 0 <= k < i ==> target_valid(as_slice_target(#[trigger] ts@[k]), index.targets),
        decreases ts.len() - i,
    {
        let t = &ts[i];
        let st = SliceTarget { reference: t.reference.clone(), lifecycle: t.lifecycle, transition: t.transition };
        proof {
            assert(st == as_slice_target(ts@[i as int]));
        }
        if !candidate_target_is_valid(&index.targets, &st) {
            return false;
        }
        i = i + 1;
    }
    true
}

/// Whether the candidate slice can be selected, given what blocks it.
pub fn split_candidate_selectable(
    plan: &PlanFacts,
    slice: &SliceCandidate,
    request: &RequestFacts,
    limits: &SlicingLimits,
    index: &ReviewIndex,
    closure_complete: bool,
    blockers: &Vec<Blocker>,
) -> (r: bool)
    ensures
        r == candidate_selectable(*plan, *slice, *request, *limits, *index, closure_complete, blockers@),
{
    let investigate = matches!(request.operation, WorkOperation::Investigate);
    let mut intrinsic = false;
    let mut k: usize = 0;
    while k < blockers.len()
        invariant
            k <= blockers.len(),
            intrinsic == exists|j: int| 0 <= j < k && (#[trigger] blockers@[j]).rule_id@ != "plan-needs-review"@,
        decreases blockers.len() - k,
    {
        if !str_eq(blockers[k].rule_id.as_str(), "plan-needs-review") {
            intrinsic = true;
        }
        k = k + 1;
    }
    let valid_targets = all_valid(&slice.editable_targets, index) && all_valid(&slice.verification_targets, index)
        && all_valid(&slice.readonly_context, index);
    proof {
        let a = slice.editable_targets@;
        let b = slice.verification_targets@;
        let c = slice.readonly_context@;
        let all = review_targets(*slice);
        if valid_targets {
            assert forall|k: int| 0 <= k < all.len() implies target_valid(as_slice_target(#[trigger] all[k]), index.targets) by {
                if k < a.len() {
                    assert(all[k] == a[k]);
                } else if k < a.len() + b.len() {
                    assert(all[k] == b[k - a.len()]);
                } else {
                    assert(all[k] == c[k - a.len() - b.len()]);
                }
            }
        } else {
            if exists|k: int| 0 <= k < a.len() && !target_valid(as_slice_target(#[trigger] a[k]), index.targets) {
                let k = choose|k: int| 0 <= k < a.len() && !target_valid(as_slice_target(#[trigger] a[k]), index.targets);
                assert(all[k] == a[k]);
            } else if exists|k: int| 0 <= k < b.len() && !target_valid(as_slice_target(#[trigger] b[k]), index.targets) {
                let k = choose|k: int| 0 <= k < b.len() && !target_valid(as_slice_target(#[trigger] b[k]), index.targets);
                assert(all[k + a.len()] == b[k]);
            } else {
                let k = choose|k: int| 0 <= k < c.len() && !target_valid(as_slice_target(#[trigger] c[k]), index.targets);
                assert(all[k + a.len() + b.len()] == c[k]);
            }
        }
    }
    (plan.ready || plan_can_replan_candidate(plan, slice)) && !intrinsic && !slice.low_confidence && (investigate
        || slice.editable_targets.len() > 0) && slice_budget_within_limits(&slice.budget, limits) && valid_targets
        && closure_complete && (investigate || verification_covers_editable_targets(
        index,
        &slice.editable_targets,
        &slice.verification_targets,
        &request.requested_targets,
        request.criterion.as_str(),
    ))
}

proof fn lemma_no_lifecycle_blockers(ts: Seq<ReviewTarget>, index: ReviewIndex)
    requires
        lifecycle_blockers(ts, index).len() == 0,
    ensures
        forall|k: int| 0 <= k < ts.len() ==> target_valid(as_slice_target(#[trigger] ts[k]), index.targets),
    decreases ts.len(),
{
    if ts.len() > 0 {
        lemma_no_lifecycle_blockers(ts.drop_last(), index);
        assert forall|k: int| 0 <= k < ts.len() implies target_valid(as_slice_target(#[trigger] ts[k]), index.targets) by {
            if k < ts.len() - 1 {
                assert(ts[k] == ts.drop_last()[k]);
            }
        }
    }
}

/// A candidate slice that nothing blocks can be selected.
pub proof fn lemma_unblocked_candidate_is_selectable(
    plan: PlanFacts,
    slice: SliceCandidate,
    request: RequestFacts,
    limits: SlicingLimits,
    index: ReviewIndex,
    closure_complete: bool,
)
    requires
        candidate_blockers(plan, slice, request, limits, index, closure_complete).len() == 0,
    ensures
        candidate_selectable(plan, slice, request, limits, index, closure_complete, Seq::empty()),
{
    let all = candidate_blockers(plan, slice, request, limits, index, closure_complete);
    let investigate = request.operation is Investigate;
    assert(blockers_model(slice.blockers@).len() == slice.blockers@.len());
    assert(slice.blockers@.len() == 0);
    lemma_no_lifecycle_blockers(review_targets(slice), index);
    assert(!slice.low_confidence);
    assert(investigate || slice.editable_targets@.len() > 0);
}

} // verus!
