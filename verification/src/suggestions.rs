//! Target suggestions for a criterion: which ones the user rejected or
//! approved, and the exact targets that the approved ones request.
use vstd::prelude::*;
use crate::selection::{homogeneous, transitions_homogeneous, TargetTransition};
use crate::text::{append, owned, str_eq};
use crate::work::WorkOrigin;

verus! {

/// A target the planner suggests for a criterion, with the fingerprint of
/// the evidence it rests on and its rank among the suggestions shown.
#[derive(Debug, Clone)]
pub struct TargetSuggestion {
    pub id: String,
    pub reference: String,
    pub evidence_fingerprint: String,
    pub transition: TargetTransition,
    pub rank: usize,
    /// The added bytes the planner budgets for the target, if any.
    pub budget_bytes: Option<u64>,
    /// The added lines the planner budgets for the target, if any.
    pub budget_lines: Option<u64>,
}

/// A suggestion the user rejected, with the evidence it was rejected on.
#[derive(Debug, Clone)]
pub struct RejectedSuggestion {
    pub id: String,
    pub evidence_fingerprint: String,
}

/// A suggestion the user approved for a criterion.
#[derive(Debug, Clone)]
pub struct ApprovedTargetSuggestion {
    pub criterion: String,
    pub suggestion_id: String,
    pub evidence_fingerprint: String,
}

/// An exact target a work request asks for.
#[derive(Debug, Clone)]
pub struct RequestTarget {
    pub reference: String,
    pub criterion: Option<String>,
    pub transition: TargetTransition,
}

/// A target of the index as the feature origin sees it.
#[derive(Debug, Clone)]
pub struct IndexedTarget {
    pub reference: String,
    /// The target's lifecycle says it does not exist yet.
    pub absent: bool,
}

/// A suggestion as a value, apart from its rank: id, reference, evidence
/// fingerprint, transition.
pub open spec fn suggestion_key(s: TargetSuggestion) -> (Seq<char>, Seq<char>, Seq<char>, TargetTransition) {
    (s.id@, s.reference@, s.evidence_fingerprint@, s.transition)
}

pub open spec fn suggestion_keys(s: Seq<TargetSuggestion>) -> Seq<(Seq<char>, Seq<char>, Seq<char>, TargetTransition)> {
    s.map_values(|x: TargetSuggestion| suggestion_key(x))
}

pub open spec fn request_key(t: RequestTarget) -> (Seq<char>, Option<Seq<char>>, TargetTransition) {
    (
        t.reference@,
        match t.criterion {
            Some(c) => Some(c@),
            None => None,
        },
        t.transition,
    )
}

pub open spec fn request_keys(t: Seq<RequestTarget>) -> Seq<(Seq<char>, Option<Seq<char>>, TargetTransition)> {
    t.map_values(|x: RequestTarget| request_key(x))
}

/// A suggestion was rejected on the evidence it still rests on.
pub open spec fn is_rejected(rejected: Seq<RejectedSuggestion>, s: TargetSuggestion) -> bool {
    exists|k: int|
        0 <= k < rejected.len() && #[trigger] rejected[k].id@ == s.id@ && rejected[k].evidence_fingerprint@
            == s.evidence_fingerprint@
}

/// The suggestions that are not rejected on their current evidence, in order.
pub open spec fn unrejected(s: Seq<TargetSuggestion>, rejected: Seq<RejectedSuggestion>) -> Seq<
    (Seq<char>, Seq<char>, Seq<char>, TargetTransition),
>
    decreases s.len(),
{
    if s.len() == 0 {
        Seq::empty()
    } else {
        let rest = unrejected(s.drop_last(), rejected);
        if is_rejected(rejected, s.last()) {
            rest
        } else {
            rest.push(suggestion_key(s.last()))
        }
    }
}

/// An approval of `criterion` names the suggestion `s` on its evidence.
pub open spec fn approves(a: ApprovedTargetSuggestion, criterion: Seq<char>, s: TargetSuggestion) -> bool {
    a.criterion@ == criterion && a.suggestion_id@ == s.id@ && a.evidence_fingerprint@
        == s.evidence_fingerprint@
}

pub open spec fn is_approved(approvals: Seq<ApprovedTargetSuggestion>, criterion: Seq<char>, s: TargetSuggestion) -> bool {
    exists|k: int| 0 <= k < approvals.len() && approves(#[trigger] approvals[k], criterion, s)
}

/// The ids of the approved suggestions, in suggestion order.
pub open spec fn approved_ids(
    s: Seq<TargetSuggestion>,
    criterion: Seq<char>,
    approvals: Seq<ApprovedTargetSuggestion>,
) -> Seq<Seq<char>>
    decreases s.len(),
{
    if s.len() == 0 {
        Seq::empty()
    } else {
        let rest = approved_ids(s.drop_last(), criterion, approvals);
        if is_approved(approvals, criterion, s.last()) {
            rest.push(s.last().id@)
        } else {
            rest
        }
    }
}

/// The first suggestion with id `id` and evidence `fp`.
pub open spec fn first_suggestion(s: Seq<TargetSuggestion>, id: Seq<char>, fp: Seq<char>) -> Option<int>
    decreases s.len(),
{
    if s.len() == 0 {
        None
    } else {
        match first_suggestion(s.drop_last(), id, fp) {
            Some(i) => Some(i),
            None => if s.last().id@ == id && s.last().evidence_fingerprint@ == fp {
                Some(s.len() - 1)
            } else {
                None
            },
        }
    }
}

/// For each approval of `anchor`, in approval order, the suggestion it
/// names, when one does.
pub open spec fn approved_picks(
    anchor: Seq<char>,
    s: Seq<TargetSuggestion>,
    approvals: Seq<ApprovedTargetSuggestion>,
) -> Seq<int>
    decreases approvals.len(),
{
    if approvals.len() == 0 {
        Seq::empty()
    } else {
        let rest = approved_picks(anchor, s, approvals.drop_last());
        let a = approvals.last();
        if a.criterion@ == anchor {
            match first_suggestion(s, a.suggestion_id@, a.evidence_fingerprint@) {
                Some(i) => rest.push(i),
                None => rest,
            }
        } else {
            rest
        }
    }
}

// ---------------------------------------------------------------------------

proof fn lemma_first_suggestion(s: Seq<TargetSuggestion>, id: Seq<char>, fp: Seq<char>)
    ensures
        match first_suggestion(s, id, fp) {
            Some(i) => 0 <= i < s.len() && s[i].id@ == id && s[i].evidence_fingerprint@ == fp,
            None => forall|i: int| 0 <= i < s.len() ==> !(s[i].id@ == id && s[i].evidence_fingerprint@ == fp),
        },
    decreases s.len(),
{
    if s.len() > 0 {
        lemma_first_suggestion(s.drop_last(), id, fp);
        assert forall|i: int| 0 <= i < s.len() - 1 implies s.drop_last()[i] == s[i] by {}
    }
}

pub(crate) fn copy_suggestion(s: &TargetSuggestion) -> (r: TargetSuggestion)
    ensures
        suggestion_key(r) == suggestion_key(*s),
        r.rank == s.rank,
{
    TargetSuggestion {
        id: owned(s.id.as_str()),
        reference: owned(s.reference.as_str()),
        evidence_fingerprint: owned(s.evidence_fingerprint.as_str()),
        transition: s.transition,
        rank: s.rank,
        budget_bytes: s.budget_bytes,
        budget_lines: s.budget_lines,
    }
}

fn rejected_now(rejected: &Vec<RejectedSuggestion>, s: &TargetSuggestion) -> (r: bool)
    ensures
        r == is_rejected(rejected@, *s),
{
    let mut k: usize = 0;
    while k < rejected.len()
        invariant
            k <= rejected.len(),
            forall|j: int|
                0 <= j < k ==> !(#[trigger] rejected@[j].id@ == s.id@ && rejected@[j].evidence_fingerprint@
                    == s.evidence_fingerprint@),
        decreases rejected.len() - k,
    {
        if str_eq(rejected[k].id.as_str(), s.id.as_str()) && str_eq(
            rejected[k].evidence_fingerprint.as_str(),
            s.evidence_fingerprint.as_str(),
        ) {
            return true;
        }
        k = k + 1;
    }
    false
}

fn approved_now(approvals: &Vec<ApprovedTargetSuggestion>, criterion: &str, s: &TargetSuggestion) -> (r: bool)
    ensures
        r == is_approved(approvals@, criterion@, *s),
{
    let mut k: usize = 0;
    while k < approvals.len()
        invariant
            k <= approvals.len(),
            forall|j: int| 0 <= j < k ==> !approves(#[trigger] approvals@[j], criterion@, *s),
        decreases approvals.len() - k,
    {
        if str_eq(approvals[k].criterion.as_str(), criterion) && str_eq(
            approvals[k].suggestion_id.as_str(),
            s.id.as_str(),
        ) && str_eq(approvals[k].evidence_fingerprint.as_str(), s.evidence_fingerprint.as_str()) {
            return true;
        }
        k = k + 1;
    }
    false
}

fn find_suggestion(s: &Vec<TargetSuggestion>, id: &str, fp: &str) -> (r: Option<usize>)
    ensures
        match r {
            Some(i) => first_suggestion(s@, id@, fp@) == Some(i as int),
            None => first_suggestion(s@, id@, fp@) is None,
        },
{
    proof {
        lemma_first_suggestion(s@, id@, fp@);
    }
    let mut k: usize = 0;
    while k < s.len()
        invariant
            k <= s.len(),
            forall|j: int| 0 <= j < k ==> !(#[trigger] s@[j].id@ == id@ && s@[j].evidence_fingerprint@ == fp@),
        decreases s.len() - k,
    {
        if str_eq(s[k].id.as_str(), id) && str_eq(s[k].evidence_fingerprint.as_str(), fp) {
            proof {
                lemma_first_prefix(s@, id@, fp@, k as int);
            }
            return Some(k);
        }
        k = k + 1;
    }
    None
}

/// With no match before `k` and one at `k`, the first match is `k`.
proof fn lemma_first_prefix(s: Seq<TargetSuggestion>, id: Seq<char>, fp: Seq<char>, k: int)
    requires
        0 <= k < s.len(),
        s[k].id@ == id && s[k].evidence_fingerprint@ == fp,
        forall|j: int| 0 <= j < k ==> !(#[trigger] s[j].id@ == id && s[j].evidence_fingerprint@ == fp),
    ensures
        first_suggestion(s, id, fp) == Some(k),
    decreases s.len(),
{
    if k < s.len() - 1 {
        lemma_first_prefix(s.drop_last(), id, fp, k);
    } else {
        lemma_first_suggestion(s.drop_last(), id, fp);
    }
}

/// The keys of the suggestions picked by the approvals of `anchor`.
pub open spec fn picked_keys(
    anchor: Seq<char>,
    s: Seq<TargetSuggestion>,
    approvals: Seq<ApprovedTargetSuggestion>,
) -> Seq<(Seq<char>, Seq<char>, Seq<char>, TargetTransition)> {
    approved_picks(anchor, s, approvals).map_values(|i: int| suggestion_key(s[i]))
}

/// The exact targets requested by the approvals of `anchor`: each picked
/// suggestion's reference and transition, for the criterion `anchor`.
pub open spec fn picked_requests(
    anchor: Seq<char>,
    s: Seq<TargetSuggestion>,
    approvals: Seq<ApprovedTargetSuggestion>,
) -> Seq<(Seq<char>, Option<Seq<char>>, TargetTransition)> {
    approved_picks(anchor, s, approvals).map_values(
        |i: int| (s[i].reference@, Some(anchor), s[i].transition),
    )
}

pub open spec fn suggestion_transitions(s: Seq<TargetSuggestion>) -> Seq<TargetTransition> {
    s.map_values(|x: TargetSuggestion| x.transition)
}

pub open spec fn unknown_target_message(reference: Seq<char>) -> Seq<char> {
    "feature origin target "@ + reference + " is unknown"@
}

pub open spec fn absent_target_message(reference: Seq<char>) -> Seq<char> {
    "feature origin target "@ + reference + " is absent"@
}

/// The targets a feature origin names, with its criterion; `None` for a
/// requirement origin.
pub open spec fn feature_origin(o: WorkOrigin) -> Option<(Seq<Seq<char>>, Seq<char>)> {
    match o {
        WorkOrigin::RequirementCriterion { .. } => None,
        WorkOrigin::FeatureImplementationBinding { criterion, targets, .. } => Some(
            (targets@.map_values(|t: String| t@), criterion@),
        ),
        WorkOrigin::FeatureImplementationTarget { target, criterion, .. } => Some((seq![target@], criterion@)),
    }
}

/// Whether the first index entry for `reference` is absent; `None` when the
/// index does not know it.
pub open spec fn indexed_absent(index: Seq<IndexedTarget>, reference: Seq<char>) -> Option<bool>
    decreases index.len(),
{
    if index.len() == 0 {
        None
    } else {
        match indexed_absent(index.drop_last(), reference) {
            Some(a) => Some(a),
            None => if index.last().reference@ == reference {
                Some(index.last().absent)
            } else {
                None
            },
        }
    }
}

/// Each named target, modified for `criterion`; the first target the index
/// does not know, or knows as absent, refuses the whole list.
pub open spec fn feature_requests(
    index: Seq<IndexedTarget>,
    refs: Seq<Seq<char>>,
    criterion: Seq<char>,
) -> Result<Seq<(Seq<char>, Option<Seq<char>>, TargetTransition)>, Seq<char>>
    decreases refs.len(),
{
    if refs.len() == 0 {
        Ok(Seq::empty())
    } else {
        match feature_requests(index, refs.drop_last(), criterion) {
            Err(e) => Err(e),
            Ok(v) => match indexed_absent(index, refs.last()) {
                None => Err(unknown_target_message(refs.last())),
                Some(true) => Err(absent_target_message(refs.last())),
                Some(false) => Ok(v.push((refs.last(), Some(criterion), TargetTransition::Modify))),
            },
        }
    }
}

/// The suggestions that are not rejected on the evidence they now rest on,
/// ranked from one in their order.
pub fn filtered_target_suggestions(suggestions: &Vec<TargetSuggestion>, rejected: &Vec<RejectedSuggestion>) -> (r:
    Vec<TargetSuggestion>)
    ensures
        suggestion_keys(r@) == unrejected(suggestions@, rejected@),
        forall|i: int| 0 <= i < r@.len() ==> #[trigger] r@[i].rank == i + 1,
{
    let mut out: Vec<TargetSuggestion> = Vec::new();
    let mut k: usize = 0;
    while k < suggestions.len()
        invariant
            k <= suggestions.len(),
            out@.len() <= k,
            suggestion_keys(out@) == unrejected(suggestions@.take(k as int), rejected@),
            forall|i: int| 0 <= i < out@.len() ==> #[trigger] out@[i].rank == i + 1,
        decreases suggestions.len() - k,
    {
        proof {
            assert(suggestions@.take(k + 1).drop_last() =~= suggestions@.take(k as int));
            assert(suggestions@.take(k + 1).last() == suggestions@[k as int]);
        }
        let ghost before = suggestion_keys(out@);
        if !rejected_now(rejected, &suggestions[k]) {
            let mut c = copy_suggestion(&suggestions[k]);
            c.rank = out.len() + 1;
            out.push(c);
            proof {
                assert(suggestion_keys(out@) =~= before.push(suggestion_key(suggestions@[k as int])));
            }
        }
        k = k + 1;
    }
    proof {
        assert(suggestions@.take(suggestions@.len() as int) =~= suggestions@);
    }
    out
}

/// The ids of the suggestions approved for `criterion` on their current
/// evidence, in suggestion order.
pub fn approved_suggestion_ids(
    criterion: &str,
    suggestions: &Vec<TargetSuggestion>,
    approvals: &Vec<ApprovedTargetSuggestion>,
) -> (r: Vec<String>)
    ensures
        r@.map_values(|x: String| x@) == approved_ids(suggestions@, criterion@, approvals@),
{
    let mut out: Vec<String> = Vec::new();
    let mut k: usize = 0;
    while k < suggestions.len()
        invariant
            k <= suggestions.len(),
            out@.map_values(|x: String| x@) == approved_ids(suggestions@.take(k as int), criterion@, approvals@),
        decreases suggestions.len() - k,
    {
        proof {
            assert(suggestions@.take(k + 1).drop_last() =~= suggestions@.take(k as int));
            assert(suggestions@.take(k + 1).last() == suggestions@[k as int]);
        }
        let ghost before = out@.map_values(|x: String| x@);
        if approved_now(approvals, criterion, &suggestions[k]) {
            out.push(owned(suggestions[k].id.as_str()));
            proof {
                assert(out@.map_values(|x: String| x@) =~= before.push(suggestions@[k as int].id@));
            }
        }
        k = k + 1;
    }
    proof {
        assert(suggestions@.take(suggestions@.len() as int) =~= suggestions@);
    }
    out
}

/// The positions of the suggestions that the approvals of `anchor` pick.
pub(crate) fn picks(anchor: &str, suggestions: &Vec<TargetSuggestion>, approvals: &Vec<ApprovedTargetSuggestion>) -> (r:
    Vec<usize>)
    ensures
        r@.map_values(|i: usize| i as int) == approved_picks(anchor@, suggestions@, approvals@),
        forall|q: int| 0 <= q < r@.len() ==> #[trigger] r@[q] < suggestions@.len(),
{
    let mut out: Vec<usize> = Vec::new();
    let mut k: usize = 0;
    while k < approvals.len()
        invariant
            k <= approvals.len(),
            out@.map_values(|i: usize| i as int) == approved_picks(anchor@, suggestions@, approvals@.take(k as int)),
            forall|q: int| 0 <= q < out@.len() ==> #[trigger] out@[q] < suggestions@.len(),
        decreases approvals.len() - k,
    {
        proof {
            assert(approvals@.take(k + 1).drop_last() =~= approvals@.take(k as int));
            assert(approvals@.take(k + 1).last() == approvals@[k as int]);
        }
        let ghost before = out@.map_values(|i: usize| i as int);
        if str_eq(approvals[k].criterion.as_str(), anchor) {
            match find_suggestion(
                suggestions,
                approvals[k].suggestion_id.as_str(),
                approvals[k].evidence_fingerprint.as_str(),
            ) {
                Some(i) => {
                    proof {
                        lemma_first_suggestion(
                            suggestions@,
                            approvals@[k as int].suggestion_id@,
                            approvals@[k as int].evidence_fingerprint@,
                        );
                    }
                    out.push(i);
                    proof {
                        assert(out@.map_values(|i: usize| i as int) =~= before.push(i as int));
                    }
                },
                None => {},
            }
        }
        k = k + 1;
    }
    proof {
        assert(approvals@.take(approvals@.len() as int) =~= approvals@);
    }
    out
}

/// For each approval of `anchor`, in approval order, the suggestion it
/// names on the same evidence among those recomputed for it; approvals that
/// name none are passed over. A failed recomputation is refused with its
/// own message.
pub fn resolve_approved_target_candidates(
    anchor: &str,
    recomputed: Result<Vec<TargetSuggestion>, String>,
    approvals: &Vec<ApprovedTargetSuggestion>,
) -> (r: Result<Vec<TargetSuggestion>, String>)
    ensures
        match recomputed {
            Err(m) => r is Err && r->Err_0@ == m@,
            Ok(s) => r is Ok && suggestion_keys(r->Ok_0@) == picked_keys(anchor@, s@, approvals@),
        },
{
    match recomputed {
        Err(m) => Err(m),
        Ok(s) => Ok(approved_candidates_from(anchor, &s, approvals)),
    }
}

fn approved_candidates_from(
    anchor: &str,
    suggestions: &Vec<TargetSuggestion>,
    approvals: &Vec<ApprovedTargetSuggestion>,
) -> (r: Vec<TargetSuggestion>)
    ensures
        suggestion_keys(r@) == picked_keys(anchor@, suggestions@, approvals@),
{
    let p = picks(anchor, suggestions, approvals);
    let ghost pv = p@.map_values(|i: usize| i as int);
    let mut out: Vec<TargetSuggestion> = Vec::new();
    let mut k: usize = 0;
    while k < p.len()
        invariant
            k <= p.len(),
            pv == p@.map_values(|i: usize| i as int),
            forall|q: int| 0 <= q < p@.len() ==> #[trigger] p@[q] < suggestions@.len(),
            suggestion_keys(out@) == pv.take(k as int).map_values(|i: int| suggestion_key(suggestions@[i])),
        decreases p.len() - k,
    {
        let ghost before = suggestion_keys(out@);
        out.push(copy_suggestion(&suggestions[p[k]]));
        proof {
            let f = |i: int| suggestion_key(suggestions@[i]);
            assert(pv[k as int] == p@[k as int] as int);
            assert(pv.take(k + 1) =~= pv.take(k as int).push(p@[k as int] as int));
            assert(pv.take(k + 1).map_values(f) =~= pv.take(k as int).map_values(f).push(f(p@[k as int] as int)));
            assert(suggestion_keys(out@) =~= before.push(suggestion_key(suggestions@[p@[k as int] as int])));
            assert(suggestion_keys(out@) =~= pv.take(k + 1).map_values(|i: int| suggestion_key(suggestions@[i])));
        }
        k = k + 1;
    }
    proof {
        assert(pv.take(pv.len() as int) =~= pv);
    }
    out
}

/// The exact targets that the approvals of `anchor` request from the
/// suggestions recomputed for it: each picked suggestion's reference and
/// transition, for the criterion `anchor`. A failed recomputation refuses
/// the request with its own message; it never stands for "no targets".
pub fn resolve_requested_targets(
    anchor: &str,
    recomputed: Result<Vec<TargetSuggestion>, String>,
    approvals: &Vec<ApprovedTargetSuggestion>,
) -> (r: Result<Vec<RequestTarget>, String>)
    ensures
        match recomputed {
            Err(m) => r is Err && r->Err_0@ == m@,
            Ok(s) => r is Ok && request_keys(r->Ok_0@) == picked_requests(anchor@, s@, approvals@),
        },
{
    match recomputed {
        Err(m) => Err(m),
        Ok(s) => Ok(requested_targets_from(anchor, &s, approvals)),
    }
}

/// The exact targets that the approvals of `anchor` request from the
/// suggestions `suggestions`.
pub(crate) fn requested_targets_from(
    anchor: &str,
    suggestions: &Vec<TargetSuggestion>,
    approvals: &Vec<ApprovedTargetSuggestion>,
) -> (r: Vec<RequestTarget>)
    ensures
        request_keys(r@) == picked_requests(anchor@, suggestions@, approvals@),
{
    let p = picks(anchor, suggestions, approvals);
    let ghost pv = p@.map_values(|i: usize| i as int);
    let mut out: Vec<RequestTarget> = Vec::new();
    let mut k: usize = 0;
    while k < p.len()
        invariant
            k <= p.len(),
            pv == p@.map_values(|i: usize| i as int),
            forall|q: int| 0 <= q < p@.len() ==> #[trigger] p@[q] < suggestions@.len(),
            request_keys(out@) == pv.take(k as int).map_values(
                |i: int| (suggestions@[i].reference@, Some(anchor@), suggestions@[i].transition),
            ),
        decreases p.len() - k,
    {
        let ghost before = request_keys(out@);
        let c = &suggestions[p[k]];
        out.push(
            RequestTarget {
                reference: owned(c.reference.as_str()),
                criterion: Some(owned(anchor)),
                transition: c.transition,
            },
        );
        proof {
            let f = |i: int| (suggestions@[i].reference@, Some(anchor@), suggestions@[i].transition);
            assert(pv[k as int] == p@[k as int] as int);
            assert(pv.take(k + 1) =~= pv.take(k as int).push(p@[k as int] as int));
            assert(pv.take(k + 1).map_values(f) =~= pv.take(k as int).map_values(f).push(f(p@[k as int] as int)));
            assert(request_keys(out@) =~= before.push(f(p@[k as int] as int)));
            assert(request_keys(out@) =~= pv.take(k + 1).map_values(
                |i: int| (suggestions@[i].reference@, Some(anchor@), suggestions@[i].transition),
            ));
        }
        k = k + 1;
    }
    proof {
        assert(pv.take(pv.len() as int) =~= pv);
    }
    out
}

/// Approved suggestions must share one transition; otherwise the work is to
/// be requested separately.
pub fn ensure_homogeneous_approved_transitions(candidates: &Vec<TargetSuggestion>) -> (r: Result<(), String>)
    ensures
        r is Ok <==> homogeneous(suggestion_transitions(candidates@)),
        r matches Err(m) ==> m@
            == "approved target suggestions use multiple transitions; create separate WorkRequests"@,
{
    let mut ts: Vec<TargetTransition> = Vec::new();
    let mut k: usize = 0;
    while k < candidates.len()
        invariant
            k <= candidates.len(),
            ts@ == suggestion_transitions(candidates@).take(k as int),
        decreases candidates.len() - k,
    {
        ts.push(candidates[k].transition);
        k = k + 1;
        assert(ts@ =~= suggestion_transitions(candidates@).take(k as int));
    }
    assert(ts@ =~= suggestion_transitions(candidates@));
    if transitions_homogeneous(&ts) {
        Ok(())
    } else {
        Err(owned("approved target suggestions use multiple transitions; create separate WorkRequests"))
    }
}

fn find_indexed(index: &Vec<IndexedTarget>, reference: &str) -> (r: Option<bool>)
    ensures
        r == indexed_absent(index@, reference@),
{
    let mut k: usize = 0;
    while k < index.len()
        invariant
            k <= index.len(),
            indexed_absent(index@.take(k as int), reference@) is None,
        decreases index.len() - k,
    {
        proof {
            assert(index@.take(k + 1).drop_last() =~= index@.take(k as int));
            assert(index@.take(k + 1).last() == index@[k as int]);
        }
        if str_eq(index[k].reference.as_str(), reference) {
            proof {
                lemma_indexed_prefix(index@, reference@, k + 1);
            }
            return Some(index[k].absent);
        }
        k = k + 1;
    }
    proof {
        assert(index@.take(index@.len() as int) =~= index@);
    }
    None
}

/// A prefix that already decides the lookup decides it for the whole index.
proof fn lemma_indexed_prefix(index: Seq<IndexedTarget>, reference: Seq<char>, k: int)
    requires
        0 <= k <= index.len(),
        indexed_absent(index.take(k), reference) is Some,
    ensures
        indexed_absent(index, reference) == indexed_absent(index.take(k), reference),
    decreases index.len() - k,
{
    if k < index.len() {
        assert(index.take(k + 1).drop_last() =~= index.take(k));
        lemma_indexed_prefix(index, reference, k + 1);
    } else {
        assert(index.take(k) =~= index);
    }
}

fn target_message(reference: &str, tail: &str) -> (r: String)
    ensures
        r@ == "feature origin target "@ + reference@ + tail@,
{
    let mut m = owned("feature origin target ");
    append(&mut m, reference);
    append(&mut m, tail);
    m
}

/// The exact targets that a feature origin names, each to be modified for
/// the origin's criterion. A requirement origin is refused, and so is the
/// first named target the index does not know or knows as absent.
pub fn resolve_feature_origin_targets(index: &Vec<IndexedTarget>, origin: &WorkOrigin) -> (r: Result<
    Vec<RequestTarget>,
    String,
>)
    ensures
        match feature_origin(*origin) {
            None => r matches Err(m) && m@ == "feature origin targets require a Feature implementation origin"@,
            Some((refs, criterion)) => match (r, feature_requests(index@, refs, criterion)) {
                (Ok(v), Ok(w)) => request_keys(v@) == w,
                (Err(m), Err(e)) => m@ == e,
                _ => false,
            },
        },
{
    let single: Vec<String>;
    let (targets, criterion): (&Vec<String>, &String) = match origin {
        WorkOrigin::RequirementCriterion { .. } => {
            return Err(owned("feature origin targets require a Feature implementation origin"));
        },
        WorkOrigin::FeatureImplementationBinding { targets, criterion, .. } => (targets, criterion),
        WorkOrigin::FeatureImplementationTarget { target, criterion, .. } => {
            single = vec![owned(target.as_str())];
            (&single, criterion)
        },
    };
    let ghost refs = targets@.map_values(|t: String| t@);
    proof {
        assert(feature_origin(*origin) == Some((refs, criterion@))) by {
            if let WorkOrigin::FeatureImplementationTarget { target, .. } = *origin {
                assert(refs =~= seq![target@]);
            }
        }
    }
    let mut out: Vec<RequestTarget> = Vec::new();
    let mut k: usize = 0;
    proof {
        assert(refs.take(0) =~= Seq::<Seq<char>>::empty());
        assert(request_keys(out@) =~= Seq::empty());
    }
    while k < targets.len()
        invariant
            k <= targets.len(),
            refs == targets@.map_values(|t: String| t@),
            feature_origin(*origin) == Some((refs, criterion@)),
            feature_requests(index@, refs.take(k as int), criterion@) == Ok::<
                Seq<(Seq<char>, Option<Seq<char>>, TargetTransition)>,
                Seq<char>,
            >(request_keys(out@)),
        decreases targets.len() - k,
    {
        proof {
            assert(refs.take(k + 1).drop_last() =~= refs.take(k as int));
            assert(refs.take(k + 1).last() == targets@[k as int]@);
        }
        let reference = targets[k].as_str();
        match find_indexed(index, reference) {
            None => {
                proof {
                    lemma_requests_stop(index@, refs, criterion@, k as int + 1);
                }
                return Err(target_message(reference, " is unknown"));
            },
            Some(true) => {
                proof {
                    lemma_requests_stop(index@, refs, criterion@, k as int + 1);
                }
                return Err(target_message(reference, " is absent"));
            },
            Some(false) => {
                let ghost before = request_keys(out@);
                out.push(
                    RequestTarget {
                        reference: owned(reference),
                        criterion: Some(owned(criterion.as_str())),
                        transition: TargetTransition::Modify,
                    },
                );
                proof {
                    assert(request_keys(out@) =~= before.push(
                        (targets@[k as int]@, Some(criterion@), TargetTransition::Modify),
                    ));
                }
            },
        }
        k = k + 1;
    }
    proof {
        assert(refs.take(refs.len() as int) =~= refs);
    }
    Ok(out)
}

/// A refusal of a prefix is the refusal of the whole list.
proof fn lemma_requests_stop(index: Seq<IndexedTarget>, refs: Seq<Seq<char>>, criterion: Seq<char>, k: int)
    requires
        0 <= k <= refs.len(),
        feature_requests(index, refs.take(k), criterion) is Err,
    ensures
        feature_requests(index, refs, criterion) == feature_requests(index, refs.take(k), criterion),
    decreases refs.len() - k,
{
    if k < refs.len() {
        assert(refs.take(k + 1).drop_last() =~= refs.take(k));
        lemma_requests_stop(index, refs, criterion, k + 1);
    } else {
        assert(refs.take(k) =~= refs);
    }
}

} // verus!
