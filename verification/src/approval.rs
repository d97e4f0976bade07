//! Approving target suggestions: the checks an approval passes, when the
//! work has to be split first, and the approvals the session records.
use vstd::prelude::*;
use crate::selection::TargetTransition;
use crate::suggestions::{
    copy_suggestion, is_rejected, suggestion_key, suggestion_keys, ApprovedTargetSuggestion, RejectedSuggestion,
    TargetSuggestion,
};
use crate::text::{owned, str_eq};

verus! {

/// Groups of suggestion ids to approve one at a time, and why.
#[derive(Debug, Clone)]
pub struct SplitWorkRecommendation {
    pub reason: String,
    pub suggested_groups: Vec<Vec<String>>,
}

/// The answer to an approval: the ids approved, or how to split the work.
#[derive(Debug, Clone)]
pub struct TargetSuggestionApprovalView {
    pub approved_ids: Vec<String>,
    pub split_recommendation: Option<SplitWorkRecommendation>,
}

/// Why an approval is refused.
#[derive(Debug, Clone, Copy, PartialEq, Eq, Structural)]
pub enum ApprovalRefusal {
    /// The suggestions changed since they were shown.
    SuggestionsChanged,
    /// The approval names no id, or one id twice.
    NoUniqueIds,
    /// An approved id is not among the current suggestions.
    StaleSuggestion,
}

impl ApprovalRefusal {
    /// The message of the refusal.
    pub fn message(&self) -> (r: &'static str)
        ensures
            r@ == (match *self {
                ApprovalRefusal::SuggestionsChanged => "target suggestions changed; review the refreshed evidence"@,
                ApprovalRefusal::NoUniqueIds => "approval requires one or more unique suggestion ids"@,
                ApprovalRefusal::StaleSuggestion => "approval includes a stale, rejected, or unknown suggestion"@,
            }),
    {
        match self {
            ApprovalRefusal::SuggestionsChanged => "target suggestions changed; review the refreshed evidence",
            ApprovalRefusal::NoUniqueIds => "approval requires one or more unique suggestion ids",
            ApprovalRefusal::StaleSuggestion => "approval includes a stale, rejected, or unknown suggestion",
        }
    }

    /// The HTTP status of the refusal: a conflict when the suggestions
    /// changed, a bad request otherwise.
    pub fn status(&self) -> (r: u16)
        ensures
            r == (if *self == ApprovalRefusal::SuggestionsChanged { 409u16 } else { 400u16 }),
    {
        match self {
            ApprovalRefusal::SuggestionsChanged => 409,
            _ => 400,
        }
    }
}

/// A suggestion as a value: id, reference, evidence fingerprint, transition.
pub type SuggestionKey = (Seq<char>, Seq<char>, Seq<char>, TargetTransition);

pub open spec fn strs(v: Seq<String>) -> Seq<Seq<char>> {
    v.map_values(|s: String| s@)
}

/// An approval as a value: criterion, suggestion id, evidence fingerprint.
pub open spec fn approval_key(a: ApprovedTargetSuggestion) -> (Seq<char>, Seq<char>, Seq<char>) {
    (a.criterion@, a.suggestion_id@, a.evidence_fingerprint@)
}

pub open spec fn approval_keys(v: Seq<ApprovedTargetSuggestion>) -> Seq<(Seq<char>, Seq<char>, Seq<char>)> {
    v.map_values(|a: ApprovedTargetSuggestion| approval_key(a))
}

/// At least one id, none twice.
pub open spec fn unique_ids(ids: Seq<Seq<char>>) -> bool {
    ids.len() > 0 && forall|i: int, j: int| 0 <= i < j < ids.len() ==> ids[i] != ids[j]
}

/// The current suggestions whose id is requested, in suggestion order.
pub open spec fn requested_in(current: Seq<SuggestionKey>, ids: Seq<Seq<char>>) -> Seq<SuggestionKey>
    decreases current.len(),
{
    if current.len() == 0 {
        Seq::empty()
    } else {
        let rest = requested_in(current.drop_last(), ids);
        if ids.contains(current.last().0) {
            rest.push(current.last())
        } else {
            rest
        }
    }
}

/// Some approved suggestion does more than modify its target.
pub open spec fn any_beyond_modify(approved: Seq<SuggestionKey>) -> bool {
    exists|i: int| 0 <= i < approved.len() && #[trigger] approved[i].3 != TargetTransition::Modify
}

/// The ids of the approved suggestions with transition `t`, in order.
pub open spec fn ids_with(approved: Seq<SuggestionKey>, t: TargetTransition) -> Seq<Seq<char>>
    decreases approved.len(),
{
    if approved.len() == 0 {
        Seq::empty()
    } else {
        let rest = ids_with(approved.drop_last(), t);
        if approved.last().3 == t {
            rest.push(approved.last().0)
        } else {
            rest
        }
    }
}

/// Transitions in the order of their names.
pub open spec fn transition_order() -> Seq<TargetTransition> {
    seq![
        TargetTransition::Add,
        TargetTransition::Modify,
        TargetTransition::Readonly,
        TargetTransition::Remove,
        TargetTransition::RunOnly,
    ]
}

/// The non-empty groups of ids by transition, for the transitions of `order`.
pub open spec fn groups_for(approved: Seq<SuggestionKey>, order: Seq<TargetTransition>) -> Seq<Seq<Seq<char>>>
    decreases order.len(),
{
    if order.len() == 0 {
        Seq::empty()
    } else {
        let rest = groups_for(approved, order.drop_last());
        let g = ids_with(approved, order.last());
        if g.len() > 0 {
            rest.push(g)
        } else {
            rest
        }
    }
}

/// The approved ids grouped by transition, groups in the order of the
/// transitions' names.
pub open spec fn transition_groups(approved: Seq<SuggestionKey>) -> Seq<Seq<Seq<char>>> {
    groups_for(approved, transition_order())
}

pub open spec fn incompatible_reason() -> Seq<char> {
    "Selected targets use incompatible transitions; approve one transition group at a time."@
}

/// The approvals without the one of `criterion` for suggestion `id`.
pub open spec fn without_approval(
    approvals: Seq<(Seq<char>, Seq<char>, Seq<char>)>,
    criterion: Seq<char>,
    id: Seq<char>,
) -> Seq<(Seq<char>, Seq<char>, Seq<char>)>
    decreases approvals.len(),
{
    if approvals.len() == 0 {
        Seq::empty()
    } else {
        let rest = without_approval(approvals.drop_last(), criterion, id);
        let a = approvals.last();
        if a.0 == criterion && a.1 == id {
            rest
        } else {
            rest.push(a)
        }
    }
}

/// The approvals after recording `approved` for `criterion`, one by one:
/// an earlier approval of the same suggestion is replaced, and the new one
/// is appended with the suggestion's current evidence.
pub open spec fn record_approvals(
    approvals: Seq<(Seq<char>, Seq<char>, Seq<char>)>,
    criterion: Seq<char>,
    approved: Seq<SuggestionKey>,
) -> Seq<(Seq<char>, Seq<char>, Seq<char>)>
    decreases approved.len(),
{
    if approved.len() == 0 {
        approvals
    } else {
        let before = record_approvals(approvals, criterion, approved.drop_last());
        let c = approved.last();
        without_approval(before, criterion, c.0).push((criterion, c.0, c.2))
    }
}

pub open spec fn split_view(s: SplitWorkRecommendation) -> (Seq<char>, Seq<Seq<Seq<char>>>) {
    (s.reason@, s.suggested_groups@.map_values(|g: Vec<String>| strs(g@)))
}

pub open spec fn opt_split_view(s: Option<SplitWorkRecommendation>) -> Option<(Seq<char>, Seq<Seq<Seq<char>>>)> {
    match s {
        Some(x) => Some(split_view(x)),
        None => None,
    }
}

// ---------------------------------------------------------------------------

fn has_unique_ids(ids: &Vec<String>) -> (r: bool)
    ensures
        r == unique_ids(strs(ids@)),
{
    let ghost v = strs(ids@);
    if ids.len() == 0 {
        return false;
    }
    let mut j: usize = 1;
    while j < ids.len()
        invariant
            1 <= j <= ids.len(),
            v == strs(ids@),
            forall|a: int, b: int| 0 <= a < b < j ==> v[a] != v[b],
        decreases ids.len() - j,
    {
        let mut i: usize = 0;
        while i < j
            invariant
                i <= j < ids.len(),
                v == strs(ids@),
                forall|a: int, b: int| 0 <= a < b < j ==> v[a] != v[b],
                forall|a: int| 0 <= a < i ==> v[a] != v[j as int],
            decreases j - i,
        {
            if str_eq(ids[i].as_str(), ids[j].as_str()) {
                proof {
                    assert(v[i as int] == v[j as int]);
                }
                return false;
            }
            i = i + 1;
        }
        j = j + 1;
    }
    true
}

fn contains_id(ids: &Vec<String>, id: &str) -> (r: bool)
    ensures
        r == strs(ids@).contains(id@),
{
    let mut k: usize = 0;
    while k < ids.len()
        invariant
            k <= ids.len(),
            forall|q: int| 0 <= q < k ==> strs(ids@)[q] != id@,
        decreases ids.len() - k,
    {
        if str_eq(ids[k].as_str(), id) {
            proof {
                assert(strs(ids@)[k as int] == id@);
            }
            return true;
        }
        k = k + 1;
    }
    false
}

fn requested_suggestions(current: &Vec<TargetSuggestion>, ids: &Vec<String>) -> (r: Vec<TargetSuggestion>)
    ensures
        suggestion_keys(r@) == requested_in(suggestion_keys(current@), strs(ids@)),
{
    let ghost ck = suggestion_keys(current@);
    let mut out: Vec<TargetSuggestion> = Vec::new();
    let mut k: usize = 0;
    while k < current.len()
        invariant
            k <= current.len(),
            ck == suggestion_keys(current@),
            suggestion_keys(out@) == requested_in(ck.take(k as int), strs(ids@)),
        decreases current.len() - k,
    {
        proof {
            assert(ck.take(k + 1).drop_last() =~= ck.take(k as int));
            assert(ck.take(k + 1).last() == suggestion_key(current@[k as int]));
        }
        let ghost before = suggestion_keys(out@);
        if contains_id(ids, current[k].id.as_str()) {
            out.push(copy_suggestion(&current[k]));
            proof {
                assert(suggestion_keys(out@) =~= before.push(suggestion_key(current@[k as int])));
            }
        }
        k = k + 1;
    }
    proof {
        assert(ck.take(ck.len() as int) =~= ck);
    }
    out
}

fn beyond_modify(approved: &Vec<TargetSuggestion>) -> (r: bool)
    ensures
        r == any_beyond_modify(suggestion_keys(approved@)),
{
    let mut k: usize = 0;
    while k < approved.len()
        invariant
            k <= approved.len(),
            forall|q: int| 0 <= q < k ==> suggestion_keys(approved@)[q].3 == TargetTransition::Modify,
        decreases approved.len() - k,
    {
        if approved[k].transition != TargetTransition::Modify {
            proof {
                assert(suggestion_keys(approved@)[k as int].3 != TargetTransition::Modify);
            }
            return true;
        }
        k = k + 1;
    }
    false
}

fn ids_with_exec(approved: &Vec<TargetSuggestion>, t: TargetTransition) -> (r: Vec<String>)
    ensures
        strs(r@) == ids_with(suggestion_keys(approved@), t),
{
    let ghost ak = suggestion_keys(approved@);
    let mut out: Vec<String> = Vec::new();
    let mut k: usize = 0;
    while k < approved.len()
        invariant
            k <= approved.len(),
            ak == suggestion_keys(approved@),
            strs(out@) == ids_with(ak.take(k as int), t),
        decreases approved.len() - k,
    {
        proof {
            assert(ak.take(k + 1).drop_last() =~= ak.take(k as int));
            assert(ak.take(k + 1).last() == suggestion_key(approved@[k as int]));
        }
        let ghost before = strs(out@);
        if approved[k].transition == t {
            out.push(owned(approved[k].id.as_str()));
            proof {
                assert(strs(out@) =~= before.push(approved@[k as int].id@));
            }
        }
        k = k + 1;
    }
    proof {
        assert(ak.take(ak.len() as int) =~= ak);
    }
    out
}

pub open spec fn groups_view(g: Seq<Vec<String>>) -> Seq<Seq<Seq<char>>> {
    g.map_values(|v: Vec<String>| strs(v@))
}

fn groups_exec(approved: &Vec<TargetSuggestion>) -> (r: Vec<Vec<String>>)
    ensures
        groups_view(r@) == transition_groups(suggestion_keys(approved@)),
{
    let ghost ak = suggestion_keys(approved@);
    let ghost order = transition_order();
    let mut out: Vec<Vec<String>> = Vec::new();
    let mut k: usize = 0;
    proof {
        assert(groups_view(out@) =~= groups_for(ak, order.take(0)));
    }
    while k < 5
        invariant
            k <= 5,
            ak == suggestion_keys(approved@),
            order == transition_order(),
            groups_view(out@) == groups_for(ak, order.take(k as int)),
        decreases 5 - k,
    {
        let t = if k == 0 {
            TargetTransition::Add
        } else if k == 1 {
            TargetTransition::Modify
        } else if k == 2 {
            TargetTransition::Readonly
        } else if k == 3 {
            TargetTransition::Remove
        } else {
            TargetTransition::RunOnly
        };
        proof {
            assert(order[k as int] == t);
            assert(order.take(k + 1).drop_last() =~= order.take(k as int));
            assert(order.take(k + 1).last() == t);
        }
        let g = ids_with_exec(approved, t);
        let ghost before = groups_view(out@);
        if g.len() > 0 {
            out.push(g);
            proof {
                assert(groups_view(out@) =~= before.push(ids_with(ak, t)));
            }
        }
        k = k + 1;
    }
    proof {
        assert(order.take(5) =~= order);
    }
    out
}

fn drop_approval(approvals: &mut Vec<ApprovedTargetSuggestion>, criterion: &str, id: &str)
    ensures
        approval_keys(final(approvals)@) == without_approval(approval_keys(old(approvals)@), criterion@, id@),
{
    let ghost start = approval_keys(approvals@);
    let mut kept: Vec<ApprovedTargetSuggestion> = Vec::new();
    let mut rest: Vec<ApprovedTargetSuggestion> = Vec::new();
    std::mem::swap(&mut rest, approvals);
    let ghost orig = rest@;
    let mut k: usize = 0;
    assert(orig.len() == rest.len());
    while rest.len() > 0
        invariant
            k <= orig.len(),
            orig.len() <= usize::MAX,
            start == approval_keys(orig),
            rest@ == orig.skip(k as int),
            rest@.len() == orig.len() - k,
            approval_keys(kept@) == without_approval(start.take(k as int), criterion@, id@),
        decreases rest.len(),
    {
        let a = rest.remove(0);
        proof {
            assert(a == orig[k as int]);
            assert(start.take(k + 1).drop_last() =~= start.take(k as int));
            assert(start.take(k + 1).last() == approval_key(orig[k as int]));
            assert(rest@ =~= orig.skip(k + 1));
        }
        let ghost before = approval_keys(kept@);
        if !(str_eq(a.criterion.as_str(), criterion) && str_eq(a.suggestion_id.as_str(), id)) {
            kept.push(a);
            proof {
                assert(approval_keys(kept@) =~= before.push(approval_key(orig[k as int])));
            }
        }
        k = k + 1;
    }
    proof {
        assert(start.take(k as int) =~= start);
    }
    *approvals = kept;
}

fn record_exec(approvals: &mut Vec<ApprovedTargetSuggestion>, criterion: &str, approved: &Vec<TargetSuggestion>)
    ensures
        approval_keys(final(approvals)@) == record_approvals(
            approval_keys(old(approvals)@),
            criterion@,
            suggestion_keys(approved@),
        ),
{
    let ghost start = approval_keys(approvals@);
    let ghost ak = suggestion_keys(approved@);
    let mut k: usize = 0;
    proof {
        assert(ak.take(0) =~= Seq::<SuggestionKey>::empty());
    }
    while k < approved.len()
        invariant
            k <= approved.len(),
            ak == suggestion_keys(approved@),
            approval_keys(approvals@) == record_approvals(start, criterion@, ak.take(k as int)),
        decreases approved.len() - k,
    {
        proof {
            assert(ak.take(k + 1).drop_last() =~= ak.take(k as int));
            assert(ak.take(k + 1).last() == suggestion_key(approved@[k as int]));
        }
        let c = &approved[k];
        drop_approval(approvals, criterion, c.id.as_str());
        let ghost before = approval_keys(approvals@);
        approvals.push(
            ApprovedTargetSuggestion {
                criterion: owned(criterion),
                suggestion_id: owned(c.id.as_str()),
                evidence_fingerprint: owned(c.evidence_fingerprint.as_str()),
            },
        );
        proof {
            assert(approval_keys(approvals@) =~= before.push((criterion@, c.id@, c.evidence_fingerprint@)));
        }
        k = k + 1;
    }
    proof {
        assert(ak.take(ak.len() as int) =~= ak);
    }
}

/// Approves the suggestions `ids` of `criterion`. The suggestions shown
/// must be the current ones (`shown_token` is the token they were shown
/// with), the ids must be unique and all among the current suggestions.
/// When approving them needs the work split first (`split` is the
/// planner's recommendation, or the suggestions mix transitions and there
/// are more than two of them), the recommendation is answered and nothing is
/// recorded; otherwise each approval is recorded in `approvals`, replacing an
/// earlier approval of the same suggestion.
pub fn approve_target_suggestions(
    criterion: &str,
    current: &Vec<TargetSuggestion>,
    current_token: &str,
    shown_token: &str,
    ids: &Vec<String>,
    split: Option<SplitWorkRecommendation>,
    approvals: &mut Vec<ApprovedTargetSuggestion>,
) -> (r: Result<TargetSuggestionApprovalView, ApprovalRefusal>)
    ensures
        ({
            let approved = requested_in(suggestion_keys(current@), strs(ids@));
            if current_token@ != shown_token@ {
                r == Err::<TargetSuggestionApprovalView, ApprovalRefusal>(ApprovalRefusal::SuggestionsChanged)
            } else if !unique_ids(strs(ids@)) {
                r == Err::<TargetSuggestionApprovalView, ApprovalRefusal>(ApprovalRefusal::NoUniqueIds)
            } else if approved.len() != ids@.len() {
                r == Err::<TargetSuggestionApprovalView, ApprovalRefusal>(ApprovalRefusal::StaleSuggestion)
            } else if split is Some && any_beyond_modify(approved) {
                r matches Ok(v) && v.approved_ids@.len() == 0 && opt_split_view(v.split_recommendation)
                    == opt_split_view(split)
            } else if transition_groups(approved).len() > 1 && approved.len() > 2 && any_beyond_modify(approved) {
                r matches Ok(v) && v.approved_ids@.len() == 0 && opt_split_view(v.split_recommendation) == Some(
                    (incompatible_reason(), transition_groups(approved)),
                )
            } else {
                &&& r matches Ok(v) && strs(v.approved_ids@) == approved.map_values(|c: SuggestionKey| c.0)
                    && v.split_recommendation is None
                &&& approval_keys(final(approvals)@) == record_approvals(
                    approval_keys(old(approvals)@),
                    criterion@,
                    approved,
                )
            }
        }),
        (r is Err || (r matches Ok(v) && v.split_recommendation is Some)) ==> final(approvals)@ == old(approvals)@,
{
    if !str_eq(current_token, shown_token) {
        return Err(ApprovalRefusal::SuggestionsChanged);
    }
    if !has_unique_ids(ids) {
        return Err(ApprovalRefusal::NoUniqueIds);
    }
    let approved = requested_suggestions(current, ids);
    if approved.len() != ids.len() {
        return Err(ApprovalRefusal::StaleSuggestion);
    }
    let beyond = beyond_modify(&approved);
    if beyond {
        match split {
            Some(rec) => {
                return Ok(TargetSuggestionApprovalView { approved_ids: Vec::new(), split_recommendation: Some(rec) });
            },
            None => {},
        }
    }
    let groups = groups_exec(&approved);
    if groups.len() > 1 && approved.len() > 2 && beyond {
        let rec = SplitWorkRecommendation {
            reason: owned("Selected targets use incompatible transitions; approve one transition group at a time."),
            suggested_groups: groups,
        };
        return Ok(TargetSuggestionApprovalView { approved_ids: Vec::new(), split_recommendation: Some(rec) });
    }
    let mut approved_ids: Vec<String> = Vec::new();
    let ghost ak = suggestion_keys(approved@);
    let mut k: usize = 0;
    while k < approved.len()
        invariant
            k <= approved.len(),
            ak == suggestion_keys(approved@),
            strs(approved_ids@) == ak.take(k as int).map_values(|c: SuggestionKey| c.0),
        decreases approved.len() - k,
    {
        let ghost before = strs(approved_ids@);
        approved_ids.push(owned(approved[k].id.as_str()));
        proof {
            assert(ak[k as int] == suggestion_key(approved@[k as int]));
            assert(strs(approved_ids@) =~= before.push(approved@[k as int].id@));
            assert(ak.take(k + 1).map_values(|c: SuggestionKey| c.0) =~= ak.take(k as int).map_values(
                |c: SuggestionKey| c.0,
            ).push(ak[k as int].0));
            assert(strs(approved_ids@) =~= ak.take(k + 1).map_values(|c: SuggestionKey| c.0));
        }
        k = k + 1;
    }
    proof {
        assert(ak.take(ak.len() as int) =~= ak);
    }
    record_exec(approvals, criterion, &approved);
    Ok(TargetSuggestionApprovalView { approved_ids, split_recommendation: None })
}

proof fn lemma_without_keeps(
    approvals: Seq<(Seq<char>, Seq<char>, Seq<char>)>,
    criterion: Seq<char>,
    id: Seq<char>,
    a: (Seq<char>, Seq<char>, Seq<char>),
)
    requires
        approvals.contains(a),
        !(a.0 == criterion && a.1 == id),
    ensures
        without_approval(approvals, criterion, id).contains(a),
    decreases approvals.len(),
{
    if approvals.last() == a {
        let w = without_approval(approvals, criterion, id);
        assert(w[w.len() - 1] == a);
    } else {
        let k = choose|k: int| 0 <= k < approvals.len() && approvals[k] == a;
        assert(approvals.drop_last()[k] == a);
        lemma_without_keeps(approvals.drop_last(), criterion, id, a);
        let rest = without_approval(approvals.drop_last(), criterion, id);
        let j = choose|j: int| 0 <= j < rest.len() && rest[j] == a;
        let w = without_approval(approvals, criterion, id);
        assert(w[j] == a);
    }
}

/// Recording approvals of suggestions with distinct ids approves each of
/// them for the criterion on its current evidence, and keeps every earlier
/// approval of another criterion or of a suggestion not approved now.
pub proof fn lemma_recorded_approvals(
    approvals: Seq<(Seq<char>, Seq<char>, Seq<char>)>,
    criterion: Seq<char>,
    approved: Seq<SuggestionKey>,
)
    requires
        forall|i: int, j: int| 0 <= i < j < approved.len() ==> approved[i].0 != approved[j].0,
    ensures
        forall|i: int|
            0 <= i < approved.len() ==> record_approvals(approvals, criterion, approved).contains(
                (criterion, #[trigger] approved[i].0, approved[i].2),
            ),
        forall|a: (Seq<char>, Seq<char>, Seq<char>)|
            approvals.contains(a) && (a.0 != criterion || !approved.map_values(|c: SuggestionKey| c.0).contains(a.1))
                ==> #[trigger] record_approvals(approvals, criterion, approved).contains(a),
    decreases approved.len(),
{
    if approved.len() > 0 {
        let prefix = approved.drop_last();
        lemma_recorded_approvals(approvals, criterion, prefix);
        let before = record_approvals(approvals, criterion, prefix);
        let c = approved.last();
        let w = without_approval(before, criterion, c.0);
        let out = w.push((criterion, c.0, c.2));
        assert(out == record_approvals(approvals, criterion, approved));
        assert(out[out.len() - 1] == (criterion, c.0, c.2));
        assert forall|i: int| 0 <= i < approved.len() implies out.contains((criterion, #[trigger] approved[i].0, approved[i].2)) by {
            if i < approved.len() - 1 {
                assert(prefix[i] == approved[i]);
                assert(before.contains((criterion, prefix[i].0, prefix[i].2)));
                lemma_without_keeps(before, criterion, c.0, (criterion, approved[i].0, approved[i].2));
                let j = choose|j: int| 0 <= j < w.len() && w[j] == (criterion, approved[i].0, approved[i].2);
                assert(out[j] == w[j]);
            }
        }
        assert forall|a: (Seq<char>, Seq<char>, Seq<char>)|
            approvals.contains(a) && (a.0 != criterion || !approved.map_values(|c: SuggestionKey| c.0).contains(a.1))
                implies #[trigger] out.contains(a) by {
            if a.0 == criterion {
                let am = approved.map_values(|c: SuggestionKey| c.0);
                let pm = prefix.map_values(|c: SuggestionKey| c.0);
                assert forall|q: int| 0 <= q < pm.len() implies #[trigger] pm[q] != a.1 by {
                    assert(am[q] == pm[q]);
                }
                assert(!pm.contains(a.1));
                assert(am[am.len() - 1] == c.0);
            }
            assert(before.contains(a));
            lemma_without_keeps(before, criterion, c.0, a);
            let j = choose|j: int| 0 <= j < w.len() && w[j] == a;
            assert(out[j] == w[j]);
        }
    }
}

/// The approvals without those of `criterion` for any of `ids`.
pub open spec fn without_ids(
    approvals: Seq<(Seq<char>, Seq<char>, Seq<char>)>,
    criterion: Seq<char>,
    ids: Seq<Seq<char>>,
) -> Seq<(Seq<char>, Seq<char>, Seq<char>)>
    decreases approvals.len(),
{
    if approvals.len() == 0 {
        Seq::empty()
    } else {
        let rest = without_ids(approvals.drop_last(), criterion, ids);
        let a = approvals.last();
        if a.0 == criterion && ids.contains(a.1) {
            rest
        } else {
            rest.push(a)
        }
    }
}

/// The approvals `approved` adds for `criterion`.
pub open spec fn new_approvals(criterion: Seq<char>, approved: Seq<SuggestionKey>) -> Seq<
    (Seq<char>, Seq<char>, Seq<char>),
> {
    approved.map_values(|c: SuggestionKey| (criterion, c.0, c.2))
}

pub open spec fn key_ids(approved: Seq<SuggestionKey>) -> Seq<Seq<char>> {
    approved.map_values(|c: SuggestionKey| c.0)
}

proof fn lemma_without_add(
    x: Seq<(Seq<char>, Seq<char>, Seq<char>)>,
    y: Seq<(Seq<char>, Seq<char>, Seq<char>)>,
    criterion: Seq<char>,
    id: Seq<char>,
)
    ensures
        without_approval(x + y, criterion, id) == without_approval(x, criterion, id) + without_approval(
            y,
            criterion,
            id,
        ),
    decreases y.len(),
{
    if y.len() == 0 {
        assert(x + y =~= x);
        assert(without_approval(x, criterion, id) + without_approval(y, criterion, id) =~= without_approval(
            x,
            criterion,
            id,
        ));
    } else {
        assert((x + y).drop_last() =~= x + y.drop_last());
        assert((x + y).last() == y.last());
        lemma_without_add(x, y.drop_last(), criterion, id);
        let a = y.last();
        if a.0 == criterion && a.1 == id {
        } else {
            assert(without_approval(x, criterion, id) + without_approval(y.drop_last(), criterion, id).push(a)
                =~= (without_approval(x, criterion, id) + without_approval(y.drop_last(), criterion, id)).push(a));
        }
    }
}

proof fn lemma_without_ids_add(
    x: Seq<(Seq<char>, Seq<char>, Seq<char>)>,
    y: Seq<(Seq<char>, Seq<char>, Seq<char>)>,
    criterion: Seq<char>,
    ids: Seq<Seq<char>>,
)
    ensures
        without_ids(x + y, criterion, ids) == without_ids(x, criterion, ids) + without_ids(y, criterion, ids),
    decreases y.len(),
{
    if y.len() == 0 {
        assert(x + y =~= x);
        assert(without_ids(x, criterion, ids) + without_ids(y, criterion, ids) =~= without_ids(x, criterion, ids));
    } else {
        assert((x + y).drop_last() =~= x + y.drop_last());
        assert((x + y).last() == y.last());
        lemma_without_ids_add(x, y.drop_last(), criterion, ids);
        let a = y.last();
        if a.0 == criterion && ids.contains(a.1) {
        } else {
            assert(without_ids(x, criterion, ids) + without_ids(y.drop_last(), criterion, ids).push(a) =~= (
            without_ids(x, criterion, ids) + without_ids(y.drop_last(), criterion, ids)).push(a));
        }
    }
}

proof fn lemma_without_ids_push(
    approvals: Seq<(Seq<char>, Seq<char>, Seq<char>)>,
    criterion: Seq<char>,
    ids: Seq<Seq<char>>,
    id: Seq<char>,
)
    ensures
        without_approval(without_ids(approvals, criterion, ids), criterion, id) == without_ids(
            approvals,
            criterion,
            ids.push(id),
        ),
    decreases approvals.len(),
{
    if approvals.len() > 0 {
        lemma_without_ids_push(approvals.drop_last(), criterion, ids, id);
        let a = approvals.last();
        let w0 = without_ids(approvals.drop_last(), criterion, ids);
        assert(w0.push(a).drop_last() =~= w0);
        assert(ids.push(id).contains(a.1) == (ids.contains(a.1) || a.1 == id)) by {
            if ids.push(id).contains(a.1) {
                let k = choose|k: int| 0 <= k < ids.push(id).len() && ids.push(id)[k] == a.1;
                if k < ids.len() {
                    assert(ids[k] == a.1);
                }
            }
            if ids.contains(a.1) {
                let k = choose|k: int| 0 <= k < ids.len() && ids[k] == a.1;
                assert(ids.push(id)[k] == a.1);
            }
            if a.1 == id {
                assert(ids.push(id)[ids.len() as int] == a.1);
            }
        }
    }
}

proof fn lemma_without_new(criterion: Seq<char>, approved: Seq<SuggestionKey>, id: Seq<char>)
    requires
        !key_ids(approved).contains(id),
    ensures
        without_approval(new_approvals(criterion, approved), criterion, id) == new_approvals(criterion, approved),
    decreases approved.len(),
{
    if approved.len() > 0 {
        let p = approved.drop_last();
        assert(new_approvals(criterion, approved).drop_last() =~= new_approvals(criterion, p));
        assert(new_approvals(criterion, approved).last() == (criterion, approved.last().0, approved.last().2));
        assert(!key_ids(p).contains(id)) by {
            if key_ids(p).contains(id) {
                let k = choose|k: int| 0 <= k < key_ids(p).len() && key_ids(p)[k] == id;
                assert(key_ids(approved)[k] == id);
            }
        }
        assert(key_ids(approved)[approved.len() - 1] == approved.last().0);
        lemma_without_new(criterion, p, id);
        assert(new_approvals(criterion, p).push((criterion, approved.last().0, approved.last().2)) =~= new_approvals(
            criterion,
            approved,
        ));
    } else {
        assert(new_approvals(criterion, approved) =~= Seq::empty());
    }
}

/// With distinct ids, recording approvals removes the earlier approvals of
/// those suggestions and appends the new ones in order.
pub proof fn lemma_record_shape(
    approvals: Seq<(Seq<char>, Seq<char>, Seq<char>)>,
    criterion: Seq<char>,
    approved: Seq<SuggestionKey>,
)
    requires
        forall|i: int, j: int| 0 <= i < j < approved.len() ==> approved[i].0 != approved[j].0,
    ensures
        record_approvals(approvals, criterion, approved) == without_ids(approvals, criterion, key_ids(approved))
            + new_approvals(criterion, approved),
    decreases approved.len(),
{
    if approved.len() == 0 {
        assert forall|k: int| 0 <= k < approvals.len() implies !key_ids(approved).contains(#[trigger] approvals[k].1) by {}
        lemma_without_ids_empty(approvals, criterion, key_ids(approved));
        assert(new_approvals(criterion, approved) =~= Seq::empty());
        assert(without_ids(approvals, criterion, key_ids(approved)) + new_approvals(criterion, approved)
            =~= approvals);
    } else {
        let p = approved.drop_last();
        let c = approved.last();
        lemma_record_shape(approvals, criterion, p);
        let w = without_ids(approvals, criterion, key_ids(p));
        let n = new_approvals(criterion, p);
        lemma_without_add(w, n, criterion, c.0);
        lemma_without_ids_push(approvals, criterion, key_ids(p), c.0);
        assert(key_ids(p).push(c.0) =~= key_ids(approved));
        assert(!key_ids(p).contains(c.0)) by {
            if key_ids(p).contains(c.0) {
                let k = choose|k: int| 0 <= k < key_ids(p).len() && key_ids(p)[k] == c.0;
                assert(approved[k].0 == c.0);
            }
        }
        lemma_without_new(criterion, p, c.0);
        assert(n.push((criterion, c.0, c.2)) =~= new_approvals(criterion, approved));
        assert((without_ids(approvals, criterion, key_ids(approved)) + n).push((criterion, c.0, c.2))
            =~= without_ids(approvals, criterion, key_ids(approved)) + new_approvals(criterion, approved));
    }
}

proof fn lemma_without_ids_empty(
    approvals: Seq<(Seq<char>, Seq<char>, Seq<char>)>,
    criterion: Seq<char>,
    ids: Seq<Seq<char>>,
)
    requires
        forall|k: int| 0 <= k < approvals.len() ==> !ids.contains(#[trigger] approvals[k].1),
    ensures
        without_ids(approvals, criterion, ids) == approvals,
    decreases approvals.len(),
{
    if approvals.len() > 0 {
        let p = approvals.drop_last();
        assert forall|k: int| 0 <= k < p.len() implies !ids.contains(#[trigger] p[k].1) by {
            assert(p[k] == approvals[k]);
        }
        lemma_without_ids_empty(p, criterion, ids);
        assert(p.push(approvals.last()) =~= approvals);
    }
}

proof fn lemma_without_ids_twice(
    approvals: Seq<(Seq<char>, Seq<char>, Seq<char>)>,
    criterion: Seq<char>,
    ids: Seq<Seq<char>>,
)
    ensures
        without_ids(without_ids(approvals, criterion, ids), criterion, ids) == without_ids(approvals, criterion, ids),
    decreases approvals.len(),
{
    if approvals.len() > 0 {
        lemma_without_ids_twice(approvals.drop_last(), criterion, ids);
        let w0 = without_ids(approvals.drop_last(), criterion, ids);
        assert(w0.push(approvals.last()).drop_last() =~= w0);
    }
}

proof fn lemma_without_ids_none(
    n: Seq<(Seq<char>, Seq<char>, Seq<char>)>,
    criterion: Seq<char>,
    ids: Seq<Seq<char>>,
)
    requires
        forall|k: int| 0 <= k < n.len() ==> #[trigger] n[k].0 == criterion && ids.contains(n[k].1),
    ensures
        without_ids(n, criterion, ids) == Seq::<(Seq<char>, Seq<char>, Seq<char>)>::empty(),
    decreases n.len(),
{
    if n.len() > 0 {
        let p = n.drop_last();
        assert forall|k: int| 0 <= k < p.len() implies #[trigger] p[k].0 == criterion && ids.contains(p[k].1) by {
            assert(p[k] == n[k]);
        }
        lemma_without_ids_none(p, criterion, ids);
        assert(n[n.len() - 1] == n.last());
    }
}

/// Approving the same suggestions (with distinct ids) a second time leaves
/// the recorded approvals as the first time left them.
pub proof fn lemma_approval_idempotent(
    approvals: Seq<(Seq<char>, Seq<char>, Seq<char>)>,
    criterion: Seq<char>,
    approved: Seq<SuggestionKey>,
)
    requires
        forall|i: int, j: int| 0 <= i < j < approved.len() ==> approved[i].0 != approved[j].0,
    ensures
        record_approvals(record_approvals(approvals, criterion, approved), criterion, approved) == record_approvals(
            approvals,
            criterion,
            approved,
        ),
{
    let ids = key_ids(approved);
    let once = record_approvals(approvals, criterion, approved);
    let w = without_ids(approvals, criterion, ids);
    let n = new_approvals(criterion, approved);
    lemma_record_shape(approvals, criterion, approved);
    lemma_record_shape(once, criterion, approved);
    lemma_without_ids_add(w, n, criterion, ids);
    lemma_without_ids_twice(approvals, criterion, ids);
    assert forall|k: int| 0 <= k < n.len() implies #[trigger] n[k].0 == criterion && ids.contains(n[k].1) by {
        assert(ids[k] == n[k].1);
    }
    lemma_without_ids_none(n, criterion, ids);
    assert(w + Seq::<(Seq<char>, Seq<char>, Seq<char>)>::empty() =~= w);
}

// ---------------------------------------------------------------------------
// Rejecting a suggestion

/// Why a rejection is refused.
#[derive(Debug, Clone, Copy, PartialEq, Eq, Structural)]
pub enum RejectionRefusal {
    /// The suggestions changed since they were shown.
    SuggestionsChanged,
    /// The id is not among the current suggestions.
    UnknownSuggestion,
}

impl RejectionRefusal {
    /// The message of the refusal.
    pub fn message(&self) -> (r: &'static str)
        ensures
            r@ == (match *self {
                RejectionRefusal::SuggestionsChanged => "target suggestions changed; review the refreshed evidence"@,
                RejectionRefusal::UnknownSuggestion => "suggestion is not part of the reviewed candidate set"@,
            }),
    {
        match self {
            RejectionRefusal::SuggestionsChanged => "target suggestions changed; review the refreshed evidence",
            RejectionRefusal::UnknownSuggestion => "suggestion is not part of the reviewed candidate set",
        }
    }

    /// The HTTP status of the refusal: a conflict when the suggestions
    /// changed, a bad request otherwise.
    pub fn status(&self) -> (r: u16)
        ensures
            r == (if *self == RejectionRefusal::SuggestionsChanged { 409u16 } else { 400u16 }),
    {
        match self {
            RejectionRefusal::SuggestionsChanged => 409,
            _ => 400,
        }
    }
}

/// A rejection as a value: suggestion id, evidence fingerprint.
pub open spec fn rejection_key(r: RejectedSuggestion) -> (Seq<char>, Seq<char>) {
    (r.id@, r.evidence_fingerprint@)
}

pub open spec fn rejection_keys(v: Seq<RejectedSuggestion>) -> Seq<(Seq<char>, Seq<char>)> {
    v.map_values(|r: RejectedSuggestion| rejection_key(r))
}

/// The rejections without the one of suggestion `id`.
pub open spec fn without_rejection(v: Seq<(Seq<char>, Seq<char>)>, id: Seq<char>) -> Seq<(Seq<char>, Seq<char>)>
    decreases v.len(),
{
    if v.len() == 0 {
        Seq::empty()
    } else {
        let rest = without_rejection(v.drop_last(), id);
        if v.last().0 == id {
            rest
        } else {
            rest.push(v.last())
        }
    }
}

/// The first current suggestion with id `id`.
pub open spec fn first_with_id(s: Seq<SuggestionKey>, id: Seq<char>) -> Option<int>
    decreases s.len(),
{
    if s.len() == 0 {
        None
    } else {
        match first_with_id(s.drop_last(), id) {
            Some(i) => Some(i),
            None => if s.last().0 == id {
                Some(s.len() - 1)
            } else {
                None
            },
        }
    }
}

proof fn lemma_first_with_id_prefix(s: Seq<SuggestionKey>, id: Seq<char>, k: int)
    requires
        0 <= k <= s.len(),
        first_with_id(s.take(k), id) is Some,
    ensures
        first_with_id(s, id) == first_with_id(s.take(k), id),
    decreases s.len() - k,
{
    if k < s.len() {
        assert(s.take(k + 1).drop_last() =~= s.take(k));
        lemma_first_with_id_prefix(s, id, k + 1);
    } else {
        assert(s.take(k) =~= s);
    }
}

proof fn lemma_first_with_id_bound(s: Seq<SuggestionKey>, id: Seq<char>)
    ensures
        first_with_id(s, id) matches Some(i) ==> 0 <= i < s.len() && s[i].0 == id,
    decreases s.len(),
{
    if s.len() > 0 {
        lemma_first_with_id_bound(s.drop_last(), id);
    }
}

fn find_with_id(current: &Vec<TargetSuggestion>, id: &str) -> (r: Option<usize>)
    ensures
        match r {
            Some(i) => first_with_id(suggestion_keys(current@), id@) == Some(i as int) && i < current@.len(),
            None => first_with_id(suggestion_keys(current@), id@) is None,
        },
{
    let ghost ck = suggestion_keys(current@);
    let mut k: usize = 0;
    while k < current.len()
        invariant
            k <= current.len(),
            ck == suggestion_keys(current@),
            first_with_id(ck.take(k as int), id@) is None,
        decreases current.len() - k,
    {
        proof {
            assert(ck.take(k + 1).drop_last() =~= ck.take(k as int));
            assert(ck.take(k + 1).last() == suggestion_key(current@[k as int]));
        }
        if str_eq(current[k].id.as_str(), id) {
            proof {
                lemma_first_with_id_prefix(ck, id@, k + 1);
            }
            return Some(k);
        }
        k = k + 1;
    }
    proof {
        assert(ck.take(ck.len() as int) =~= ck);
    }
    None
}

fn drop_rejection(rejected: &mut Vec<RejectedSuggestion>, id: &str)
    ensures
        rejection_keys(final(rejected)@) == without_rejection(rejection_keys(old(rejected)@), id@),
{
    let ghost start = rejection_keys(rejected@);
    let mut kept: Vec<RejectedSuggestion> = Vec::new();
    let mut rest: Vec<RejectedSuggestion> = Vec::new();
    std::mem::swap(&mut rest, rejected);
    let ghost orig = rest@;
    let mut k: usize = 0;
    assert(orig.len() == rest.len());
    while rest.len() > 0
        invariant
            k <= orig.len(),
            orig.len() <= usize::MAX,
            start == rejection_keys(orig),
            rest@ == orig.skip(k as int),
            rest@.len() == orig.len() - k,
            rejection_keys(kept@) == without_rejection(start.take(k as int), id@),
        decreases rest.len(),
    {
        let a = rest.remove(0);
        proof {
            assert(a == orig[k as int]);
            assert(start.take(k + 1).drop_last() =~= start.take(k as int));
            assert(start.take(k + 1).last() == rejection_key(orig[k as int]));
            assert(rest@ =~= orig.skip(k + 1));
        }
        let ghost before = rejection_keys(kept@);
        if !str_eq(a.id.as_str(), id) {
            kept.push(a);
            proof {
                assert(rejection_keys(kept@) =~= before.push(rejection_key(orig[k as int])));
            }
        }
        k = k + 1;
    }
    proof {
        assert(start.take(k as int) =~= start);
    }
    *rejected = kept;
}

/// Rejects the current suggestion `id` of `criterion` on the evidence it
/// rests on now: the rejection replaces an earlier one of the same
/// suggestion, and an approval of it for `criterion` is withdrawn. The
/// suggestions shown must be the current ones and include `id`; a refused
/// rejection changes nothing.
pub fn reject_target_suggestion(
    criterion: &str,
    current: &Vec<TargetSuggestion>,
    current_token: &str,
    shown_token: &str,
    id: &str,
    rejected: &mut Vec<RejectedSuggestion>,
    approvals: &mut Vec<ApprovedTargetSuggestion>,
) -> (r: Result<(), RejectionRefusal>)
    ensures
        current_token@ != shown_token@ ==> r == Err::<(), RejectionRefusal>(RejectionRefusal::SuggestionsChanged),
        current_token@ == shown_token@ && first_with_id(suggestion_keys(current@), id@) is Some ==> r is Ok,
        current_token@ == shown_token@ && first_with_id(suggestion_keys(current@), id@) is None ==> r == Err::<
            (),
            RejectionRefusal,
        >(RejectionRefusal::UnknownSuggestion),
        r is Err ==> final(rejected)@ == old(rejected)@ && final(approvals)@ == old(approvals)@,
        r is Ok ==> current_token@ == shown_token@ && exists|i: int|
            first_with_id(suggestion_keys(current@), id@) == Some(i) && rejection_keys(final(rejected)@)
                == without_rejection(rejection_keys(old(rejected)@), id@).push(
                (id@, current@[i].evidence_fingerprint@),
            ),
        r is Ok ==> approval_keys(final(approvals)@) == without_approval(
            approval_keys(old(approvals)@),
            criterion@,
            id@,
        ),
{
    if !str_eq(current_token, shown_token) {
        return Err(RejectionRefusal::SuggestionsChanged);
    }
    let i = match find_with_id(current, id) {
        Some(i) => i,
        None => {
            return Err(RejectionRefusal::UnknownSuggestion);
        },
    };
    drop_rejection(rejected, id);
    let ghost before = rejection_keys(rejected@);
    rejected.push(
        RejectedSuggestion { id: owned(id), evidence_fingerprint: owned(current[i].evidence_fingerprint.as_str()) },
    );
    proof {
        assert(rejection_keys(rejected@) =~= before.push((id@, current@[i as int].evidence_fingerprint@)));
    }
    drop_approval(approvals, criterion, id);
    Ok(())
}

proof fn lemma_without_approval_removes(
    approvals: Seq<(Seq<char>, Seq<char>, Seq<char>)>,
    criterion: Seq<char>,
    id: Seq<char>,
)
    ensures
        forall|k: int|
            0 <= k < without_approval(approvals, criterion, id).len() ==> !(#[trigger] without_approval(
                approvals,
                criterion,
                id,
            )[k].0 == criterion && without_approval(approvals, criterion, id)[k].1 == id),
    decreases approvals.len(),
{
    if approvals.len() > 0 {
        lemma_without_approval_removes(approvals.drop_last(), criterion, id);
        let w0 = without_approval(approvals.drop_last(), criterion, id);
        let w = without_approval(approvals, criterion, id);
        assert forall|k: int| 0 <= k < w.len() implies !(#[trigger] w[k].0 == criterion && w[k].1 == id) by {
            if k < w0.len() {
                assert(w[k] == w0[k]);
            }
        }
    }
}

/// After a suggestion is rejected, the rejections hold it on the evidence
/// it was rejected on, so it is no longer shown while that evidence
/// stands, and no approval of it for the criterion remains.
pub proof fn lemma_rejected_is_hidden_and_unapproved(
    rejected: Seq<(Seq<char>, Seq<char>)>,
    approvals: Seq<(Seq<char>, Seq<char>, Seq<char>)>,
    criterion: Seq<char>,
    id: Seq<char>,
    fingerprint: Seq<char>,
)
    ensures
        without_rejection(rejected, id).push((id, fingerprint)).contains((id, fingerprint)),
        forall|a: (Seq<char>, Seq<char>, Seq<char>)|
            #[trigger] without_approval(approvals, criterion, id).contains(a) ==> !(a.0 == criterion && a.1 == id),
{
    let v = without_rejection(rejected, id).push((id, fingerprint));
    assert(v[v.len() - 1] == (id, fingerprint));
    lemma_without_approval_removes(approvals, criterion, id);
}

} // verus!
