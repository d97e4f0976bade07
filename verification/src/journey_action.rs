//! The decisions of the journey's actions: what a new work request holds,
//! how the work is renamed, and which slice preparing a plan selects.
use vstd::prelude::*;
use crate::selection::{TargetTransition, WorkOperation};
use crate::server::{origin_error_code, origin_error_status, spec_origin_error_code, spec_origin_error_status};
use crate::suggestions::{
    approved_picks, ensure_homogeneous_approved_transitions, feature_origin, feature_requests, picked_requests,
    picks, request_keys, resolve_feature_origin_targets, requested_targets_from, suggestion_transitions,
    ApprovedTargetSuggestion, IndexedTarget, RequestTarget, TargetSuggestion,
};
use crate::selection::homogeneous;
use crate::text::{chars_of, owned, str_eq, trim, trimmed};
use crate::work::WorkOrigin;

verus! {

/// Why creating work from an origin is refused: the HTTP status, the
/// machine-readable code and the message.
#[derive(Debug, Clone)]
pub struct OriginRefusal {
    pub status: u16,
    pub code: String,
    pub message: String,
}

/// The work request an origin starts, apart from its identifier.
#[derive(Debug)]
pub struct WorkRequestDraft {
    pub title: String,
    pub operation: WorkOperation,
    pub requested_targets: Vec<RequestTarget>,
    pub max_added_bytes_per_target: Option<u64>,
    pub max_added_lines_per_target: Option<u64>,
}

/// The suggestions recomputed for a criterion, or why recomputing failed.
pub open spec fn recomputed_view(r: Result<Vec<TargetSuggestion>, String>) -> Result<Seq<TargetSuggestion>, Seq<char>> {
    match r {
        Ok(v) => Ok(v@),
        Err(m) => Err(m@),
    }
}

pub open spec fn refusal_view(r: OriginRefusal) -> (u16, Seq<char>, Seq<char>) {
    (r.status, r.code@, r.message@)
}

/// The largest of the budgets given, if any is.
pub open spec fn max_budget(b: Seq<Option<u64>>) -> Option<u64>
    decreases b.len(),
{
    if b.len() == 0 {
        None
    } else {
        match (max_budget(b.drop_last()), b.last()) {
            (Some(x), Some(y)) => Some(if x < y { y } else { x }),
            (Some(x), None) => Some(x),
            (None, y) => y,
        }
    }
}

/// The operation of a requirement's work: that of the first approved
/// target's transition, modifying when it neither adds nor removes.
pub open spec fn operation_of(first: Option<TargetTransition>) -> WorkOperation {
    match first {
        Some(TargetTransition::Add) => WorkOperation::Add,
        Some(TargetTransition::Remove) => WorkOperation::Remove,
        _ => WorkOperation::Modify,
    }
}

pub open spec fn criterion_of_origin(o: WorkOrigin) -> Seq<char> {
    match o {
        WorkOrigin::RequirementCriterion { criterion } => criterion@,
        WorkOrigin::FeatureImplementationBinding { criterion, .. } => criterion@,
        WorkOrigin::FeatureImplementationTarget { criterion, .. } => criterion@,
    }
}

/// What creating work decides, as values: the refusal, or the trimmed
/// title, the operation, the requested targets and the two budget maxima.
pub open spec fn spec_create(
    schema: Seq<char>,
    expected_schema: Seq<char>,
    origin: WorkOrigin,
    title: Seq<char>,
    origin_refusal: Option<Seq<char>>,
    recomputed: Result<Seq<TargetSuggestion>, Seq<char>>,
    approvals: Seq<ApprovedTargetSuggestion>,
    index: Seq<IndexedTarget>,
) -> Result<
    (Seq<char>, WorkOperation, Seq<(Seq<char>, Option<Seq<char>>, TargetTransition)>, Option<u64>, Option<u64>),
    (u16, Seq<char>, Seq<char>),
> {
    let anchor = criterion_of_origin(origin);
    if schema != expected_schema {
        Err((400, "unsupported-origin-shape"@, "origin capability schema is invalid"@))
    } else if origin_refusal is Some {
        let m = origin_refusal->0;
        Err((spec_origin_error_status(spec_origin_error_code(m)), spec_origin_error_code(m), m))
    } else if trimmed(title).len() == 0 {
        Err((400, "unsupported-origin-shape"@, "provide a work title before continuing"@))
    } else {
        match feature_origin(origin) {
            None => match recomputed {
                Err(m) => Err((500, Seq::empty(), m)),
                Ok(suggestions) => {
                let p = approved_picks(anchor, suggestions, approvals);
                if !homogeneous(p.map_values(|i: int| suggestions[i].transition)) {
                    Err(
                        (
                            422,
                            "mixed-transition"@,
                            "approved target suggestions use multiple transitions; create separate WorkRequests"@,
                        ),
                    )
                } else {
                    Ok(
                        (
                            trimmed(title),
                            operation_of(if p.len() > 0 { Some(suggestions[p[0]].transition) } else { None }),
                            picked_requests(anchor, suggestions, approvals),
                            max_budget(p.map_values(|i: int| suggestions[i].budget_bytes)),
                            max_budget(p.map_values(|i: int| suggestions[i].budget_lines)),
                        ),
                    )
                }
                },
            },
            Some((refs, criterion)) => match feature_requests(index, refs, criterion) {
                Err(m) => Err((422, spec_origin_error_code(m), m)),
                Ok(v) => Ok((trimmed(title), WorkOperation::Modify, v, None, None)),
            },
        }
    }
}

fn refusal(status: u16, code: &str, message: &str) -> (r: OriginRefusal)
    ensures
        refusal_view(r) == (status, code@, message@),
{
    OriginRefusal { status, code: owned(code), message: owned(message) }
}

fn max_of(b: &Vec<Option<u64>>) -> (r: Option<u64>)
    ensures
        r == max_budget(b@),
{
    let mut m: Option<u64> = None;
    let mut k: usize = 0;
    while k < b.len()
        invariant
            k <= b.len(),
            m == max_budget(b@.take(k as int)),
        decreases b.len() - k,
    {
        proof {
            assert(b@.take(k + 1).drop_last() =~= b@.take(k as int));
            assert(b@.take(k + 1).last() == b@[k as int]);
        }
        m = match (m, b[k]) {
            (Some(x), Some(y)) => Some(if x < y { y } else { x }),
            (Some(x), None) => Some(x),
            (None, y) => y,
        };
        k = k + 1;
    }
    proof {
        assert(b@.take(b@.len() as int) =~= b@);
    }
    m
}

/// Starts work from an origin offered by the catalog. The capability's
/// schema must be the one expected, the origin must not be refused by the
/// planner (`origin_refusal` is its message), and the title must not be
/// blank. A requirement criterion requests the targets approved for it,
/// which must share one transition; its operation follows the first of them
/// and its budgets are their largest. A feature origin modifies the targets
/// it names, each of which the index must hold as present.
pub fn create_work_request(
    schema: &str,
    expected_schema: &str,
    origin: &WorkOrigin,
    title: &str,
    origin_refusal: Option<String>,
    recomputed: Result<Vec<TargetSuggestion>, String>,
    approvals: &Vec<ApprovedTargetSuggestion>,
    index: &Vec<IndexedTarget>,
) -> (r: Result<WorkRequestDraft, OriginRefusal>)
    ensures
        match r {
            Ok(d) => spec_create(
                schema@,
                expected_schema@,
                *origin,
                title@,
                match origin_refusal {
                    Some(m) => Some(m@),
                    None => None,
                },
                recomputed_view(recomputed),
                approvals@,
                index@,
            ) == Ok::<_, (u16, Seq<char>, Seq<char>)>(
                (
                    d.title@,
                    d.operation,
                    request_keys(d.requested_targets@),
                    d.max_added_bytes_per_target,
                    d.max_added_lines_per_target,
                ),
            ),
            Err(e) => spec_create(
                schema@,
                expected_schema@,
                *origin,
                title@,
                match origin_refusal {
                    Some(m) => Some(m@),
                    None => None,
                },
                recomputed_view(recomputed),
                approvals@,
                index@,
            ) == Err::<
                (Seq<char>, WorkOperation, Seq<(Seq<char>, Option<Seq<char>>, TargetTransition)>, Option<u64>, Option<u64>),
                _,
            >(refusal_view(e)),
        },
{
    if !str_eq(schema, expected_schema) {
        return Err(refusal(400, "unsupported-origin-shape", "origin capability schema is invalid"));
    }
    match &origin_refusal {
        Some(m) => {
            let code = origin_error_code(m.as_str());
            let status = origin_error_status(m.as_str());
            return Err(OriginRefusal { status, code, message: owned(m.as_str()) });
        },
        None => {},
    }
    let t = trim(title);
    if chars_of(t.as_str()).len() == 0 {
        return Err(refusal(400, "unsupported-origin-shape", "provide a work title before continuing"));
    }
    match origin {
        WorkOrigin::RequirementCriterion { criterion } => {
            let suggestions = match recomputed {
                Ok(s) => s,
                Err(m) => {
                    return Err(OriginRefusal { status: 500, code: String::new(), message: m });
                },
            };
            let suggestions = &suggestions;
            let p = picks(criterion.as_str(), suggestions, approvals);
            let ghost pv = p@.map_values(|i: usize| i as int);
            let mut ts: Vec<TargetTransition> = Vec::new();
            let mut bs: Vec<Option<u64>> = Vec::new();
            let mut ls: Vec<Option<u64>> = Vec::new();
            let mut k: usize = 0;
            while k < p.len()
                invariant
                    k <= p.len(),
                    pv == p@.map_values(|i: usize| i as int),
                    forall|q: int| 0 <= q < p@.len() ==> #[trigger] p@[q] < suggestions@.len(),
                    ts@ == pv.map_values(|i: int| suggestions@[i].transition).take(k as int),
                    bs@ == pv.map_values(|i: int| suggestions@[i].budget_bytes).take(k as int),
                    ls@ == pv.map_values(|i: int| suggestions@[i].budget_lines).take(k as int),
                decreases p.len() - k,
            {
                let s = &suggestions[p[k]];
                ts.push(s.transition);
                bs.push(s.budget_bytes);
                ls.push(s.budget_lines);
                k = k + 1;
                proof {
                    assert(ts@ =~= pv.map_values(|i: int| suggestions@[i].transition).take(k as int));
                    assert(bs@ =~= pv.map_values(|i: int| suggestions@[i].budget_bytes).take(k as int));
                    assert(ls@ =~= pv.map_values(|i: int| suggestions@[i].budget_lines).take(k as int));
                }
            }
            proof {
                assert(ts@ =~= pv.map_values(|i: int| suggestions@[i].transition));
                assert(bs@ =~= pv.map_values(|i: int| suggestions@[i].budget_bytes));
                assert(ls@ =~= pv.map_values(|i: int| suggestions@[i].budget_lines));
            }
            if !crate::selection::transitions_homogeneous(&ts) {
                return Err(
                    refusal(
                        422,
                        "mixed-transition",
                        "approved target suggestions use multiple transitions; create separate WorkRequests",
                    ),
                );
            }
            let operation = if p.len() > 0 {
                match suggestions[p[0]].transition {
                    TargetTransition::Add => WorkOperation::Add,
                    TargetTransition::Remove => WorkOperation::Remove,
                    _ => WorkOperation::Modify,
                }
            } else {
                WorkOperation::Modify
            };
            let requested_targets = requested_targets_from(criterion.as_str(), suggestions, approvals);
            let bytes = max_of(&bs);
            let lines = max_of(&ls);
            proof {
                assert(pv.map_values(|i: int| suggestions@[i].budget_bytes) =~= pv.map_values(
                    |i: int| if false { suggestions@[i].budget_lines } else { suggestions@[i].budget_bytes },
                ));
                assert(pv.map_values(|i: int| suggestions@[i].budget_lines) =~= pv.map_values(
                    |i: int| if true { suggestions@[i].budget_lines } else { suggestions@[i].budget_bytes },
                ));
                if p.len() > 0 {
                    assert(pv[0] == p@[0] as int);
                }
                assert(feature_origin(*origin) is None);
                assert(criterion_of_origin(*origin) == criterion@);
                assert(approved_picks(criterion@, suggestions@, approvals@) == pv);
                assert(homogeneous(pv.map_values(|i: int| suggestions@[i].transition)));
                assert(t@ == trimmed(title@));
                assert(request_keys(requested_targets@) == picked_requests(criterion@, suggestions@, approvals@));
                assert(bytes == max_budget(pv.map_values(|i: int| suggestions@[i].budget_bytes)));
                assert(lines == max_budget(pv.map_values(|i: int| suggestions@[i].budget_lines)));
                assert(operation == operation_of(if pv.len() > 0 { Some(suggestions@[pv[0]].transition) } else { None }));
            }
            Ok(
                WorkRequestDraft {
                    title: t,
                    operation,
                    requested_targets,
                    max_added_bytes_per_target: bytes,
                    max_added_lines_per_target: lines,
                },
            )
        },
        _ => {
            match resolve_feature_origin_targets(index, origin) {
                Ok(v) => Ok(
                    WorkRequestDraft {
                        title: t,
                        operation: WorkOperation::Modify,
                        requested_targets: v,
                        max_added_bytes_per_target: None,
                        max_added_lines_per_target: None,
                    },
                ),
                Err(m) => {
                    let code = origin_error_code(m.as_str());
                    Err(OriginRefusal { status: 422, code, message: m })
                },
            }
        },
    }
}

/// Why renaming the work is refused.
#[derive(Debug, Clone, Copy, PartialEq, Eq, Structural)]
pub enum RenameRefusal {
    /// The trimmed title is empty or longer than 120 characters.
    TitleLength,
    /// No work has been started.
    NoWork,
}

impl RenameRefusal {
    /// The HTTP status and message of the refusal.
    pub fn message(&self) -> (r: (u16, &'static str))
        ensures
            r.0 == (if *self == RenameRefusal::TitleLength { 400u16 } else { 409u16 }),
            r.1@ == (if *self == RenameRefusal::TitleLength {
                "work title must contain 1 to 120 characters"@
            } else {
                "start work before changing its title"@
            }),
    {
        match self {
            RenameRefusal::TitleLength => (400, "work title must contain 1 to 120 characters"),
            RenameRefusal::NoWork => (409, "start work before changing its title"),
        }
    }
}

/// The new title of the work: `title` trimmed, of 1 to 120 characters, and
/// only once work has been started.
pub fn rename_work(title: &str, has_request: bool) -> (r: Result<String, RenameRefusal>)
    ensures
        (trimmed(title@).len() == 0 || trimmed(title@).len() > 120) ==> r == Err::<String, RenameRefusal>(
            RenameRefusal::TitleLength,
        ),
        1 <= trimmed(title@).len() <= 120 && !has_request ==> r == Err::<String, RenameRefusal>(RenameRefusal::NoWork),
        1 <= trimmed(title@).len() <= 120 && has_request ==> (r matches Ok(t) && t@ == trimmed(title@)),
{
    let t = trim(title);
    let n = chars_of(t.as_str()).len();
    if n == 0 || n > 120 {
        return Err(RenameRefusal::TitleLength);
    }
    if !has_request {
        return Err(RenameRefusal::NoWork);
    }
    Ok(t)
}

/// The slice preparing a plan selects: the only slice of a ready plan;
/// none when the plan is not ready or has several slices.
pub fn prepared_slice(plan_ready: bool, slice_ids: &Vec<String>) -> (r: Option<String>)
    ensures
        plan_ready && slice_ids@.len() == 1 ==> (r matches Some(s) && s@ == slice_ids@[0]@),
        !(plan_ready && slice_ids@.len() == 1) ==> r is None,
{
    if plan_ready && slice_ids.len() == 1 {
        Some(owned(slice_ids[0].as_str()))
    } else {
        None
    }
}

/// After work is created from a requirement criterion, its approvals are
/// used up: every approval of that criterion is dropped.
pub fn release_criterion_approvals(approvals: &mut Vec<ApprovedTargetSuggestion>, criterion: &str)
    ensures
        final(approvals)@.map_values(|a: ApprovedTargetSuggestion| (a.criterion@, a.suggestion_id@, a.evidence_fingerprint@))
            == old(approvals)@.map_values(
            |a: ApprovedTargetSuggestion| (a.criterion@, a.suggestion_id@, a.evidence_fingerprint@),
        ).filter(|a: (Seq<char>, Seq<char>, Seq<char>)| a.0 != criterion@),
{
    let ghost f = |a: ApprovedTargetSuggestion| (a.criterion@, a.suggestion_id@, a.evidence_fingerprint@);
    let ghost keep = |a: (Seq<char>, Seq<char>, Seq<char>)| a.0 != criterion@;
    let ghost start = approvals@.map_values(f);
    let mut rest: Vec<ApprovedTargetSuggestion> = Vec::new();
    std::mem::swap(&mut rest, approvals);
    let ghost orig = rest@;
    let mut kept: Vec<ApprovedTargetSuggestion> = Vec::new();
    let mut k: usize = 0;
    assert(orig.len() == rest.len());
    proof {
        assert(start.take(0).filter(keep) =~= Seq::empty());
        assert(kept@.map_values(f) =~= Seq::empty());
    }
    while rest.len() > 0
        invariant
            k <= orig.len(),
            orig.len() <= usize::MAX,
            start == orig.map_values(f),
            f == (|a: ApprovedTargetSuggestion| (a.criterion@, a.suggestion_id@, a.evidence_fingerprint@)),
            keep == (|a: (Seq<char>, Seq<char>, Seq<char>)| a.0 != criterion@),
            rest@ == orig.skip(k as int),
            rest@.len() == orig.len() - k,
            kept@.map_values(f) == start.take(k as int).filter(keep),
        decreases rest.len(),
    {
        let a = rest.remove(0);
        let ghost fa = f(orig[k as int]);
        proof {
            assert(a == orig[k as int]);
            assert(rest@ =~= orig.skip(k + 1));
            assert(start[k as int] == fa);
            assert(start.take(k + 1) =~= start.take(k as int).push(fa));
            start.take(k as int).lemma_filter_push(fa, keep);
            assert(keep(fa) == (a.criterion@ != criterion@));
        }
        let ghost before = kept@.map_values(f);
        if !str_eq(a.criterion.as_str(), criterion) {
            kept.push(a);
            proof {
                assert(kept@.map_values(f) =~= before.push(fa));
            }
        }
        proof {
            assert(kept@.map_values(f) == start.take(k + 1).filter(keep));
        }
        k = k + 1;
    }
    proof {
        assert(start.take(k as int) =~= start);
    }
    *approvals = kept;
}

// ---------------------------------------------------------------------------
// The journey's session

/// What the journey's session holds: the approved target suggestions, the
/// work's title, and which of the work's parts are there (the request, the
/// plan, the selected slice, the context pack, the verification receipt,
/// the agent run and the last validation).
#[derive(Debug)]
pub struct JourneySession {
    pub approvals: Vec<ApprovedTargetSuggestion>,
    pub work_title: Option<String>,
    pub has_request: bool,
    pub has_plan: bool,
    pub has_selected_slice: bool,
    pub has_context_pack: bool,
    pub has_receipt: bool,
    pub has_agent_run: bool,
    pub has_validation: bool,
}

pub open spec fn approval_views(v: Seq<ApprovedTargetSuggestion>) -> Seq<(Seq<char>, Seq<char>, Seq<char>)> {
    v.map_values(|a: ApprovedTargetSuggestion| (a.criterion@, a.suggestion_id@, a.evidence_fingerprint@))
}

/// The refusal when the approvals changed while work was being created.
pub open spec fn approvals_changed_message() -> Seq<char> {
    "target suggestions changed; review the refreshed evidence"@
}

/// A session holding a new request and nothing that belonged to the work
/// it replaces.
pub open spec fn fresh_work(s: JourneySession, title: Seq<char>) -> bool {
    &&& s.work_title matches Some(t) && t@ == title
    &&& s.has_request
    &&& !s.has_plan && !s.has_selected_slice && !s.has_context_pack
    &&& !s.has_receipt && !s.has_agent_run && !s.has_validation
}

fn same_approvals(a: &Vec<ApprovedTargetSuggestion>, b: &Vec<ApprovedTargetSuggestion>) -> (r: bool)
    ensures
        r == (approval_views(a@) == approval_views(b@)),
{
    if a.len() != b.len() {
        proof {
            assert(approval_views(a@).len() != approval_views(b@).len());
        }
        return false;
    }
    let mut k: usize = 0;
    while k < a.len()
        invariant
            k <= a.len(),
            a.len() == b.len(),
            forall|j: int| 0 <= j < k ==> approval_views(a@)[j] == approval_views(b@)[j],
        decreases a.len() - k,
    {
        if !str_eq(a[k].criterion.as_str(), b[k].criterion.as_str()) || !str_eq(
            a[k].suggestion_id.as_str(),
            b[k].suggestion_id.as_str(),
        ) || !str_eq(a[k].evidence_fingerprint.as_str(), b[k].evidence_fingerprint.as_str()) {
            proof {
                assert(approval_views(a@)[k as int] != approval_views(b@)[k as int]);
            }
            return false;
        }
        k = k + 1;
    }
    assert(approval_views(a@) =~= approval_views(b@));
    true
}

/// Puts a newly created work request into the session. The approvals the
/// request was built from (`approvals_read`) must still be the session's;
/// otherwise the creation conflicts with the refreshed evidence and the
/// session is left as it was. A request from a requirement criterion uses
/// up that criterion's approvals. The new work keeps its title and holds
/// none of the replaced work's plan, slice, context, receipt, run or
/// validation.
pub fn commit_work_request(
    session: &mut JourneySession,
    approvals_read: &Vec<ApprovedTargetSuggestion>,
    requirement_criterion: Option<&str>,
    title: String,
) -> (r: Result<(), crate::work::TransitionRefusal>)
    ensures
        approval_views(old(session).approvals@) != approval_views(approvals_read@) ==> {
            &&& r matches Err(e) && e.status == 409 && e.message@ == approvals_changed_message()
            &&& approval_views(final(session).approvals@) == approval_views(old(session).approvals@)
            &&& final(session).work_title == old(session).work_title
            &&& final(session).has_request == old(session).has_request
            &&& final(session).has_plan == old(session).has_plan
            &&& final(session).has_selected_slice == old(session).has_selected_slice
            &&& final(session).has_context_pack == old(session).has_context_pack
            &&& final(session).has_receipt == old(session).has_receipt
            &&& final(session).has_agent_run == old(session).has_agent_run
            &&& final(session).has_validation == old(session).has_validation
        },
        approval_views(old(session).approvals@) == approval_views(approvals_read@) ==> {
            &&& r is Ok
            &&& fresh_work(*final(session), title@)
            &&& approval_views(final(session).approvals@) == match requirement_criterion {
                Some(c) => approval_views(old(session).approvals@).filter(
                    |a: (Seq<char>, Seq<char>, Seq<char>)| a.0 != c@,
                ),
                None => approval_views(old(session).approvals@),
            }
        },
{
    if !same_approvals(&session.approvals, approvals_read) {
        return Err(
            crate::work::TransitionRefusal {
                status: 409,
                message: owned("target suggestions changed; review the refreshed evidence"),
            },
        );
    }
    if let Some(c) = requirement_criterion {
        release_criterion_approvals(&mut session.approvals, c);
    }
    session.work_title = Some(title);
    session.has_request = true;
    session.has_plan = false;
    session.has_selected_slice = false;
    session.has_context_pack = false;
    session.has_receipt = false;
    session.has_agent_run = false;
    session.has_validation = false;
    Ok(())
}

/// Renames the session's work: the title is trimmed and must hold 1 to 120
/// characters, and work must have been started; nothing else changes.
pub fn commit_rename(session: &mut JourneySession, title: &str) -> (r: Result<(), RenameRefusal>)
    ensures
        (trimmed(title@).len() == 0 || trimmed(title@).len() > 120) ==> r == Err::<(), RenameRefusal>(
            RenameRefusal::TitleLength,
        ),
        1 <= trimmed(title@).len() <= 120 && !old(session).has_request ==> r == Err::<(), RenameRefusal>(
            RenameRefusal::NoWork,
        ),
        r is Err ==> final(session).work_title == old(session).work_title,
        r is Ok ==> (final(session).work_title matches Some(t) && t@ == trimmed(title@)),
        r is Ok ==> 1 <= trimmed(title@).len() <= 120 && old(session).has_request,
        final(session).has_request == old(session).has_request,
        final(session).has_plan == old(session).has_plan,
        final(session).has_selected_slice == old(session).has_selected_slice,
        approval_views(final(session).approvals@) == approval_views(old(session).approvals@),
{
    let t = rename_work(title, session.has_request)?;
    session.work_title = Some(t);
    Ok(())
}

/// Restarting or cancelling drops the work: the session becomes empty.
pub fn discard_work(session: &mut JourneySession)
    ensures
        final(session).approvals@.len() == 0,
        final(session).work_title is None,
        !final(session).has_request && !final(session).has_plan && !final(session).has_selected_slice,
        !final(session).has_context_pack && !final(session).has_receipt,
        !final(session).has_agent_run && !final(session).has_validation,
{
    *session = JourneySession {
        approvals: Vec::new(),
        work_title: None,
        has_request: false,
        has_plan: false,
        has_selected_slice: false,
        has_context_pack: false,
        has_receipt: false,
        has_agent_run: false,
        has_validation: false,
    };
}

// ---------------------------------------------------------------------------
// Laws of work requests

/// The largest budget is an upper bound that is itself given: every given
/// budget is at most it, it is one of the given budgets, and there is none
/// only when no budget is given.
pub proof fn lemma_max_budget_is_largest(b: Seq<Option<u64>>)
    ensures
        forall|k: int| 0 <= k < b.len() && #[trigger] b[k] is Some ==> max_budget(b) is Some && b[k]->0 <= max_budget(b)->0,
        max_budget(b) is Some ==> exists|k: int| 0 <= k < b.len() && #[trigger] b[k] == max_budget(b),
        max_budget(b) is None ==> forall|k: int| 0 <= k < b.len() ==> #[trigger] b[k] is None,
    decreases b.len(),
{
    if b.len() > 0 {
        let p = b.drop_last();
        lemma_max_budget_is_largest(p);
        assert forall|k: int| 0 <= k < b.len() - 1 implies b[k] == p[k] by {}
        if max_budget(p) is Some {
            let k = choose|k: int| 0 <= k < p.len() && #[trigger] p[k] == max_budget(p);
            assert(b[k] == p[k]);
        }
    }
}

/// The budgets of a new request from a requirement criterion bound every
/// approved target's budget and are each one of them.
pub proof fn lemma_request_budgets_bound_the_targets(
    schema: Seq<char>,
    expected_schema: Seq<char>,
    origin: WorkOrigin,
    title: Seq<char>,
    origin_refusal: Option<Seq<char>>,
    suggestions: Seq<TargetSuggestion>,
    approvals: Seq<ApprovedTargetSuggestion>,
    index: Seq<IndexedTarget>,
    j: int,
)
    requires
        spec_create(schema, expected_schema, origin, title, origin_refusal, Ok(suggestions), approvals, index) is Ok,
        feature_origin(origin) is None,
        0 <= j < approved_picks(criterion_of_origin(origin), suggestions, approvals).len(),
    ensures
        ({
            let d = spec_create(schema, expected_schema, origin, title, origin_refusal, Ok(suggestions), approvals, index)->Ok_0;
            let s = suggestions[approved_picks(criterion_of_origin(origin), suggestions, approvals)[j]];
            &&& s.budget_bytes matches Some(x) ==> (d.3 matches Some(m) && x <= m)
            &&& s.budget_lines matches Some(x) ==> (d.4 matches Some(m) && x <= m)
        }),
{
    let p = approved_picks(criterion_of_origin(origin), suggestions, approvals);
    let bb = p.map_values(|i: int| suggestions[i].budget_bytes);
    let bl = p.map_values(|i: int| suggestions[i].budget_lines);
    lemma_max_budget_is_largest(bb);
    lemma_max_budget_is_largest(bl);
    assert(bb[j] == suggestions[p[j]].budget_bytes);
    assert(bl[j] == suggestions[p[j]].budget_lines);
}

} // verus!
