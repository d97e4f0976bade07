//! The completion history of delivery attempts, newest first.
use vstd::prelude::*;
use crate::text::str_eq;

verus! {

/// The outcome a completion report records.
#[derive(Debug, Clone, Copy, PartialEq, Eq, Structural)]
pub enum CompletionStatus {
    Complete,
    Incomplete,
}

/// Something that keeps an attempt from completing, and what to do next.
#[derive(Debug, Clone)]
pub struct CompletionBlocker {
    pub message: String,
    pub next_action: String,
}

/// One recorded attempt, as the delivery store and the workspace show it.
#[derive(Debug, Clone)]
pub struct AttemptRecord {
    pub attempt_id: String,
    pub plan_digest: String,
    pub slice_id: String,
    pub status: CompletionStatus,
    pub demonstrated: Vec<String>,
    pub blockers: Vec<CompletionBlocker>,
    /// Whether valid finalization evidence exists for the attempt.
    pub finalized: bool,
    /// Whether the approval it ran under no longer matches the workspace.
    pub stale: bool,
}

/// An attempt as the Work page shows it.
#[derive(Debug, Clone)]
pub struct CompletionAttemptView {
    pub attempt_id: String,
    pub plan_digest: String,
    pub slice_id: String,
    pub status: CompletionStatus,
    pub demonstrated: Vec<String>,
    pub blockers: Vec<CompletionBlocker>,
    pub next_action: Option<String>,
    pub finalized: bool,
    pub stale: bool,
}

/// The newest attempt and the ones before it.
#[derive(Debug, Clone)]
pub struct CompletionHistoryView {
    pub current: Option<CompletionAttemptView>,
    pub previous: Vec<CompletionAttemptView>,
}

/// The attempts of a history, newest first.
pub open spec fn history_attempts(h: CompletionHistoryView) -> Seq<CompletionAttemptView> {
    match h.current {
        Some(c) => seq![c] + h.previous@,
        None => h.previous@,
    }
}

/// The attempt ran for exactly this plan and slice.
pub open spec fn attempt_is_for(a: CompletionAttemptView, plan_digest: Seq<char>, slice_id: Seq<char>) -> bool {
    a.plan_digest@ == plan_digest && a.slice_id@ == slice_id
}

impl CompletionHistoryView {
    /// The newest attempt of exactly this plan and slice.
    pub fn current_for(&self, plan_digest: &str, slice_id: &str) -> (r: Option<&CompletionAttemptView>)
        ensures
            match r {
                Some(a) => exists|k: int|
                    0 <= k < history_attempts(*self).len() && history_attempts(*self)[k] == *a
                        && attempt_is_for(*a, plan_digest@, slice_id@) && forall|j: int|
                        0 <= j < k ==> !attempt_is_for(
                            #[trigger] history_attempts(*self)[j],
                            plan_digest@,
                            slice_id@,
                        ),
                None => forall|k: int|
                    0 <= k < history_attempts(*self).len() ==> !attempt_is_for(
                        #[trigger] history_attempts(*self)[k],
                        plan_digest@,
                        slice_id@,
                    ),
            },
    {
        let ghost all = history_attempts(*self);
        let offset: usize = match &self.current {
            Some(c) => {
                if str_eq(c.plan_digest.as_str(), plan_digest) && str_eq(c.slice_id.as_str(), slice_id) {
                    assert(all[0] == *c);
                    return Some(c);
                }
                assert(all[0] == *c);
                1
            },
            None => 0,
        };
        let mut i: usize = 0;
        while i < self.previous.len()
            invariant
                i <= self.previous.len(),
                all == history_attempts(*self),
                all.len() == offset + self.previous@.len(),
                offset == (if self.current is Some { 1usize } else { 0usize }),
                forall|k: int| 0 <= k < self.previous@.len() ==> all[offset + k] == #[trigger] self.previous@[k],
                forall|j: int| 0 <= j < offset + i ==> !attempt_is_for(#[trigger] all[j], plan_digest@, slice_id@),
            decreases self.previous.len() - i,
        {
            let a = &self.previous[i];
            if str_eq(a.plan_digest.as_str(), plan_digest) && str_eq(a.slice_id.as_str(), slice_id) {
                assert(all[offset + i] == *a);
                return Some(a);
            }
            assert(all[offset + i] == *a);
            i = i + 1;
        }
        None
    }
}

/// The view of one attempt: what it recorded, with the next action of its
/// first blocker.
pub open spec fn attempt_view_of(r: AttemptRecord, v: CompletionAttemptView) -> bool {
    &&& v.attempt_id == r.attempt_id && v.plan_digest == r.plan_digest && v.slice_id == r.slice_id
    &&& v.status == r.status && v.demonstrated == r.demonstrated && v.blockers == r.blockers
    &&& v.finalized == r.finalized && v.stale == r.stale
    &&& match v.next_action {
        Some(a) => r.blockers@.len() > 0 && a@ == r.blockers@[0].next_action@,
        None => r.blockers@.len() == 0,
    }
}

/// The history of the recorded attempts (newest first): the first is the
/// current attempt, the rest are previous ones.
pub fn completion_history(attempts: Vec<AttemptRecord>) -> (r: CompletionHistoryView)
    ensures
        history_attempts(r).len() == attempts@.len(),
        forall|k: int| 0 <= k < attempts@.len() ==> attempt_view_of(attempts@[k], #[trigger] history_attempts(r)[k]),
        r.current is None <==> attempts@.len() == 0,
{
    let ghost all = attempts@;
    let mut rest = attempts;
    let mut views: Vec<CompletionAttemptView> = Vec::new();
    let ghost mut i: int = 0;
    while rest.len() > 0
        invariant
            0 <= i <= all.len(),
            rest@ == all.skip(i),
            views@.len() == i,
            forall|k: int| 0 <= k < i ==> attempt_view_of(all[k], #[trigger] views@[k]),
        decreases rest.len(),
    {
        proof {
            assert(all.skip(i).len() > 0);
            assert(all.skip(i)[0] == all[i]);
        }
        let r = rest.remove(0);
        proof {
            assert(rest@ =~= all.skip(i + 1));
        }
        let next_action = if r.blockers.len() > 0 {
            Some(crate::text::owned(r.blockers[0].next_action.as_str()))
        } else {
            None
        };
        let ghost rec = r;
        let v = CompletionAttemptView {
            attempt_id: r.attempt_id,
            plan_digest: r.plan_digest,
            slice_id: r.slice_id,
            status: r.status,
            demonstrated: r.demonstrated,
            blockers: r.blockers,
            next_action,
            finalized: r.finalized,
            stale: r.stale,
        };
        assert(attempt_view_of(rec, v));
        views.push(v);
        proof {
            i = i + 1;
        }
    }
    if views.len() == 0 {
        assert(history_attempts(CompletionHistoryView { current: None, previous: views })
            =~= views@);
        return CompletionHistoryView { current: None, previous: views };
    }
    let ghost vs = views@;
    let first = views.remove(0);
    proof {
        assert(seq![first] + views@ =~= vs);
    }
    CompletionHistoryView { current: Some(first), previous: views }
}

} // verus!
