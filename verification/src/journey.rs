//! The user-facing work journey: which step the work is in and the one next
//! action offered for it.
//!
//! The journey is a pure function of the work session's state.  The server
//! gathers that state (request, plan, split recovery, durable approval,
//! validation result, completion attempt and agent run) and this module
//! decides the view.
use vstd::prelude::*;
use crate::text::{owned, str_eq, usize_to_decimal};

verus! {

/// One entry of the journey's progress indicator.
#[derive(Debug, Clone)]
pub struct JourneyStepView {
    pub id: String,
    pub status: String,
    pub title: String,
}

/// An action the journey offers.
#[derive(Debug, Clone)]
pub struct JourneyActionView {
    pub action: String,
    pub label: String,
    pub label_key: String,
    pub explanation: String,
    pub explanation_key: String,
    pub confirmation_required: bool,
    pub enabled: bool,
}

/// The approved (or proposed) change boundary.
#[derive(Debug, Clone)]
pub struct JourneyScopeView {
    pub summary: String,
    pub status: String,
    pub editable_target_count: usize,
    pub slice_count: usize,
}

/// One blocker shown with the evidence.
#[derive(Debug, Clone)]
pub struct JourneyBlockerView {
    pub message: String,
    pub next_action: String,
}

/// The evidence summary of the journey.
#[derive(Debug, Clone)]
pub struct JourneyEvidenceView {
    pub status: String,
    pub summary: String,
    pub blockers: Vec<JourneyBlockerView>,
}

/// Identifiers revealed only on explicit request.
#[derive(Debug, Clone)]
pub struct JourneyAdvancedView {
    pub request_id: Option<String>,
    pub plan_id: Option<String>,
    pub selected_slice_id: Option<String>,
    pub attempt_id: Option<String>,
    pub specification_anchor: Option<String>,
}

/// The specification the work started from.
#[derive(Debug, Clone)]
pub struct JourneySpecificationView {
    pub title: String,
    pub overview: String,
    pub status: Option<String>,
    pub criterion_statement: String,
}

/// A presentation-safe view of the work lifecycle.
#[derive(Debug, Clone)]
pub struct WorkJourneyView {
    pub title: String,
    pub title_key: Option<String>,
    pub current_step: String,
    pub steps: Vec<JourneyStepView>,
    pub primary_action: JourneyActionView,
    pub recovery_action: Option<JourneyActionView>,
    pub approved_scope: Option<JourneyScopeView>,
    pub evidence: JourneyEvidenceView,
    pub related_specification: Option<JourneySpecificationView>,
    pub advanced: JourneyAdvancedView,
}

// ---------------------------------------------------------------------------
// Mathematical views

pub struct StepSpec {
    pub id: Seq<char>,
    pub status: Seq<char>,
    pub title: Seq<char>,
}

pub struct ActionSpec {
    pub action: Seq<char>,
    pub label: Seq<char>,
    pub label_key: Seq<char>,
    pub explanation: Seq<char>,
    pub explanation_key: Seq<char>,
    pub confirmation_required: bool,
    pub enabled: bool,
}

pub struct ScopeSpec {
    pub summary: Seq<char>,
    pub status: Seq<char>,
    pub editable_target_count: nat,
    pub slice_count: nat,
}

pub struct BlockerSpec {
    pub message: Seq<char>,
    pub next_action: Seq<char>,
}

pub struct EvidenceSpec {
    pub status: Seq<char>,
    pub summary: Seq<char>,
    pub blockers: Seq<BlockerSpec>,
}

pub struct AdvancedSpec {
    pub request_id: Option<Seq<char>>,
    pub plan_id: Option<Seq<char>>,
    pub selected_slice_id: Option<Seq<char>>,
    pub attempt_id: Option<Seq<char>>,
    pub specification_anchor: Option<Seq<char>>,
}

pub struct SpecificationSpec {
    pub title: Seq<char>,
    pub overview: Seq<char>,
    pub status: Option<Seq<char>>,
    pub criterion_statement: Seq<char>,
}

pub struct JourneySpec {
    pub title: Seq<char>,
    pub title_key: Option<Seq<char>>,
    pub current_step: Seq<char>,
    pub steps: Seq<StepSpec>,
    pub primary_action: ActionSpec,
    pub recovery_action: Option<ActionSpec>,
    pub approved_scope: Option<ScopeSpec>,
    pub evidence: EvidenceSpec,
    pub related_specification: Option<SpecificationSpec>,
    pub advanced: AdvancedSpec,
}

pub open spec fn opt_view(o: Option<String>) -> Option<Seq<char>> {
    match o {
        Some(s) => Some(s@),
        None => None,
    }
}

impl View for JourneyStepView {
    type V = StepSpec;

    open spec fn view(&self) -> StepSpec {
        StepSpec { id: self.id@, status: self.status@, title: self.title@ }
    }
}

impl View for JourneyActionView {
    type V = ActionSpec;

    open spec fn view(&self) -> ActionSpec {
        ActionSpec {
            action: self.action@,
            label: self.label@,
            label_key: self.label_key@,
            explanation: self.explanation@,
            explanation_key: self.explanation_key@,
            confirmation_required: self.confirmation_required,
            enabled: self.enabled,
        }
    }
}

impl View for JourneyScopeView {
    type V = ScopeSpec;

    open spec fn view(&self) -> ScopeSpec {
        ScopeSpec {
            summary: self.summary@,
            status: self.status@,
            editable_target_count: self.editable_target_count as nat,
            slice_count: self.slice_count as nat,
        }
    }
}

impl View for JourneyBlockerView {
    type V = BlockerSpec;

    open spec fn view(&self) -> BlockerSpec {
        BlockerSpec { message: self.message@, next_action: self.next_action@ }
    }
}

impl View for JourneyEvidenceView {
    type V = EvidenceSpec;

    open spec fn view(&self) -> EvidenceSpec {
        EvidenceSpec {
            status: self.status@,
            summary: self.summary@,
            blockers: self.blockers@.map_values(|b: JourneyBlockerView| b@),
        }
    }
}

impl View for JourneyAdvancedView {
    type V = AdvancedSpec;

    open spec fn view(&self) -> AdvancedSpec {
        AdvancedSpec {
            request_id: opt_view(self.request_id),
            plan_id: opt_view(self.plan_id),
            selected_slice_id: opt_view(self.selected_slice_id),
            attempt_id: opt_view(self.attempt_id),
            specification_anchor: opt_view(self.specification_anchor),
        }
    }
}

impl View for JourneySpecificationView {
    type V = SpecificationSpec;

    open spec fn view(&self) -> SpecificationSpec {
        SpecificationSpec {
            title: self.title@,
            overview: self.overview@,
            status: opt_view(self.status),
            criterion_statement: self.criterion_statement@,
        }
    }
}

pub open spec fn opt_action_view(o: Option<JourneyActionView>) -> Option<ActionSpec> {
    match o {
        Some(a) => Some(a@),
        None => None,
    }
}

pub open spec fn opt_scope_view(o: Option<JourneyScopeView>) -> Option<ScopeSpec> {
    match o {
        Some(a) => Some(a@),
        None => None,
    }
}

pub open spec fn opt_specification_view(o: Option<JourneySpecificationView>) -> Option<
    SpecificationSpec,
> {
    match o {
        Some(a) => Some(a@),
        None => None,
    }
}

impl View for WorkJourneyView {
    type V = JourneySpec;

    open spec fn view(&self) -> JourneySpec {
        JourneySpec {
            title: self.title@,
            title_key: opt_view(self.title_key),
            current_step: self.current_step@,
            steps: self.steps@.map_values(|s: JourneyStepView| s@),
            primary_action: self.primary_action@,
            recovery_action: opt_action_view(self.recovery_action),
            approved_scope: opt_scope_view(self.approved_scope),
            evidence: self.evidence@,
            related_specification: opt_specification_view(self.related_specification),
            advanced: self.advanced@,
        }
    }
}

// ---------------------------------------------------------------------------
// Steps

/// The fixed journey step identifiers, in order.
pub open spec fn step_ids() -> Seq<Seq<char>> {
    seq![
        "select_specification"@,
        "review"@,
        "approve"@,
        "implement"@,
        "verify"@,
        "complete"@,
    ]
}

/// The title shown for each step.
pub open spec fn step_titles() -> Seq<Seq<char>> {
    seq![
        "Select specification"@,
        "Review"@,
        "Approve"@,
        "Implement"@,
        "Check"@,
        "Complete"@,
    ]
}

/// The position of `current` among the steps; an unknown step counts as the
/// first.
pub open spec fn step_position(current: Seq<char>) -> int {
    if current == step_ids()[0] {
        0
    } else if current == step_ids()[1] {
        1
    } else if current == step_ids()[2] {
        2
    } else if current == step_ids()[3] {
        3
    } else if current == step_ids()[4] {
        4
    } else if current == step_ids()[5] {
        5
    } else {
        0
    }
}

/// Steps before the current one are complete, the current one is current,
/// later ones are upcoming.
pub open spec fn spec_journey_steps(current: Seq<char>) -> Seq<StepSpec> {
    Seq::new(
        6,
        |i: int|
            StepSpec {
                id: step_ids()[i],
                status: if i < step_position(current) {
                    "complete"@
                } else if i == step_position(current) {
                    "current"@
                } else {
                    "upcoming"@
                },
                title: step_titles()[i],
            },
    )
}

fn step_status(index: usize, current_index: usize) -> (r: String)
    ensures
        r@ == (if index < current_index {
            "complete"@
        } else if index == current_index {
            "current"@
        } else {
            "upcoming"@
        }),
{
    if index < current_index {
        owned("complete")
    } else if index == current_index {
        owned("current")
    } else {
        owned("upcoming")
    }
}

fn step_position_exec(current: &str) -> (r: usize)
    ensures
        r as int == step_position(current@),
{
    if str_eq(current, "select_specification") {
        0
    } else if str_eq(current, "review") {
        1
    } else if str_eq(current, "approve") {
        2
    } else if str_eq(current, "implement") {
        3
    } else if str_eq(current, "verify") {
        4
    } else if str_eq(current, "complete") {
        5
    } else {
        0
    }
}

/// The six journey steps with their status relative to `current`.
pub fn journey_steps(current: &str) -> (r: Vec<JourneyStepView>)
    ensures
        r@.map_values(|s: JourneyStepView| s@) == spec_journey_steps(current@),
{
    let p = step_position_exec(current);
    let mut r: Vec<JourneyStepView> = Vec::new();
    r.push(JourneyStepView { id: owned("select_specification"), status: step_status(0, p), title: owned("Select specification") });
    r.push(JourneyStepView { id: owned("review"), status: step_status(1, p), title: owned("Review") });
    r.push(JourneyStepView { id: owned("approve"), status: step_status(2, p), title: owned("Approve") });
    r.push(JourneyStepView { id: owned("implement"), status: step_status(3, p), title: owned("Implement") });
    r.push(JourneyStepView { id: owned("verify"), status: step_status(4, p), title: owned("Check") });
    r.push(JourneyStepView { id: owned("complete"), status: step_status(5, p), title: owned("Complete") });
    assert(r@.map_values(|s: JourneyStepView| s@) =~= spec_journey_steps(current@));
    r
}


// ---------------------------------------------------------------------------
// Journey state and decision

/// The status of the durable agent run attached to the session.
#[derive(Debug, Clone, Copy, PartialEq, Eq, Structural)]
pub enum AgentRunStatus {
    Active,
    Blocked,
    /// Any status in which the run no longer holds the work (completed,
    /// abandoned, ...).
    Finished,
}

/// The prepared work plan, as the journey reads it.
#[derive(Debug, Clone)]
pub struct JourneyPlan {
    /// Whether the plan status is `Ready`.
    pub ready: bool,
    /// The number of editable targets of each execution slice, in order.
    pub slice_editable_counts: Vec<usize>,
}

/// One split-recovery candidate, as the journey reads it.
#[derive(Debug, Clone, Copy)]
pub struct JourneyRecoveryCandidate {
    pub selectable: bool,
    pub editable_target_count: usize,
}

/// The split-recovery view of a blocked candidate plan.
#[derive(Debug, Clone)]
pub struct JourneyRecovery {
    pub candidates: Vec<JourneyRecoveryCandidate>,
    pub reason_message: String,
}

/// The completion attempt recorded for the selected slice of the plan.
#[derive(Debug, Clone)]
pub struct JourneyAttempt {
    pub attempt_id: String,
    pub finalized: bool,
    /// Whether the attempt's status is `Complete`.
    pub complete: bool,
    pub blockers: Vec<JourneyBlockerView>,
}

/// Everything the journey depends on.
#[derive(Debug, Clone)]
pub struct JourneyInput {
    /// Whether the session holds a work request.
    pub has_request: bool,
    pub agent: Option<AgentRunStatus>,
    /// The work title (the session title, else the request title).
    pub title: String,
    pub related_specification: Option<JourneySpecificationView>,
    /// Request, plan, slice and anchor identifiers; its `attempt_id` is not read.
    pub advanced: JourneyAdvancedView,
    pub plan: Option<JourneyPlan>,
    pub split_recovery: Option<JourneyRecovery>,
    /// Whether the durable store holds an approval of the plan's first slice.
    pub approved: bool,
    /// Whether the last validation run passed.
    pub validation_passed: bool,
    pub completed: Option<JourneyAttempt>,
}

/// The stage the journey is in; each stage has one view.
#[derive(Debug, Clone, Copy, PartialEq, Eq, Structural)]
pub enum JourneyStage {
    NoWork,
    Interrupted,
    Draft,
    SelectSlice,
    ReplanSlice,
    SplitBlocked,
    MultipleSlices,
    NoSlices,
    BoundaryBlocked,
    Finalized,
    ReadyToFinalize,
    ImplementationBlocked,
    NeedsReview,
    AwaitingApproval,
    ReadyToStart,
    InProgress,
}

pub open spec fn plan_slice_count(i: JourneyInput) -> int {
    i.plan->0.slice_editable_counts@.len() as int
}

pub open spec fn has_selectable_candidate(r: JourneyRecovery) -> bool {
    exists|k: int| 0 <= k < r.candidates@.len() && #[trigger] r.candidates@[k].selectable
}

/// The journey's decision.
pub open spec fn spec_journey_stage(i: JourneyInput) -> JourneyStage {
    if !i.has_request {
        if i.agent == Some(AgentRunStatus::Active) || i.agent == Some(AgentRunStatus::Blocked) {
            JourneyStage::Interrupted
        } else {
            JourneyStage::NoWork
        }
    } else if i.plan is None {
        JourneyStage::Draft
    } else if i.plan->0.ready && plan_slice_count(i) > 1 {
        JourneyStage::SelectSlice
    } else if !i.plan->0.ready && i.split_recovery is Some && has_selectable_candidate(
        i.split_recovery->0,
    ) {
        JourneyStage::ReplanSlice
    } else if !i.plan->0.ready && i.split_recovery is Some {
        JourneyStage::SplitBlocked
    } else if !i.plan->0.ready || plan_slice_count(i) != 1 {
        if plan_slice_count(i) > 1 {
            JourneyStage::MultipleSlices
        } else if plan_slice_count(i) == 0 {
            JourneyStage::NoSlices
        } else {
            JourneyStage::BoundaryBlocked
        }
    } else if i.completed is Some && i.completed->0.finalized {
        JourneyStage::Finalized
    } else if i.completed is Some && i.completed->0.complete {
        JourneyStage::ReadyToFinalize
    } else if i.agent == Some(AgentRunStatus::Blocked) {
        JourneyStage::ImplementationBlocked
    } else if !i.validation_passed {
        JourneyStage::NeedsReview
    } else if !i.approved {
        JourneyStage::AwaitingApproval
    } else if i.agent is None {
        JourneyStage::ReadyToStart
    } else {
        JourneyStage::InProgress
    }
}

/// Stages reached once a single ready slice has been prepared.
pub open spec fn is_execution_stage(s: JourneyStage) -> bool {
    match s {
        JourneyStage::Finalized | JourneyStage::ReadyToFinalize
        | JourneyStage::ImplementationBlocked | JourneyStage::NeedsReview
        | JourneyStage::AwaitingApproval | JourneyStage::ReadyToStart
        | JourneyStage::InProgress => true,
        _ => false,
    }
}

/// Decides the journey stage.
pub fn journey_stage(i: &JourneyInput) -> (r: JourneyStage)
    ensures
        r == spec_journey_stage(*i),
{
    if !i.has_request {
        let interrupted = match i.agent {
            Some(AgentRunStatus::Active) | Some(AgentRunStatus::Blocked) => true,
            _ => false,
        };
        return if interrupted {
            JourneyStage::Interrupted
        } else {
            JourneyStage::NoWork
        };
    }
    let plan = match &i.plan {
        None => {
            return JourneyStage::Draft;
        },
        Some(p) => p,
    };
    let n = plan.slice_editable_counts.len();
    if plan.ready && n > 1 {
        return JourneyStage::SelectSlice;
    }
    if !plan.ready {
        match &i.split_recovery {
            Some(recovery) => {
                let mut k: usize = 0;
                while k < recovery.candidates.len()
                    invariant
                        k <= recovery.candidates.len(),
                        i.has_request,
                        i.plan == Some(*plan),
                        !plan.ready,
                        i.split_recovery == Some(*recovery),
                        forall|j: int| 0 <= j < k ==> !recovery.candidates@[j].selectable,
                    decreases recovery.candidates.len() - k,
                {
                    if recovery.candidates[k].selectable {
                        assert(recovery.candidates@[k as int].selectable);
                        return JourneyStage::ReplanSlice;
                    }
                    k = k + 1;
                }
                return JourneyStage::SplitBlocked;
            },
            None => {},
        }
    }
    if !plan.ready || n != 1 {
        return if n > 1 {
            JourneyStage::MultipleSlices
        } else if n == 0 {
            JourneyStage::NoSlices
        } else {
            JourneyStage::BoundaryBlocked
        };
    }
    match &i.completed {
        Some(attempt) => {
            if attempt.finalized {
                return JourneyStage::Finalized;
            }
            if attempt.complete {
                return JourneyStage::ReadyToFinalize;
            }
        },
        None => {},
    }
    match i.agent {
        Some(AgentRunStatus::Blocked) => {
            return JourneyStage::ImplementationBlocked;
        },
        _ => {},
    }
    if !i.validation_passed {
        return JourneyStage::NeedsReview;
    }
    if !i.approved {
        return JourneyStage::AwaitingApproval;
    }
    match i.agent {
        None => JourneyStage::ReadyToStart,
        Some(_) => JourneyStage::InProgress,
    }
}


// ---------------------------------------------------------------------------
// The view of each stage

pub open spec fn action_spec(
    action: Seq<char>,
    label: Seq<char>,
    label_key: Seq<char>,
    explanation: Seq<char>,
    explanation_key: Seq<char>,
    confirmation_required: bool,
) -> ActionSpec {
    ActionSpec {
        action,
        label,
        label_key,
        explanation,
        explanation_key,
        confirmation_required,
        enabled: true,
    }
}

/// The cancel action offered as recovery.
pub open spec fn cancel_action_spec() -> ActionSpec {
    action_spec(
        "cancel"@,
        "Cancel this work"@,
        "journey.action.cancel"@,
        "This stops the current journey. Changes already written to files are not undone."@,
        "journey.explanation.cancel"@,
        true,
    )
}

/// The step each stage is shown at.
pub open spec fn stage_step(s: JourneyStage) -> Seq<char> {
    match s {
        JourneyStage::NoWork => "select_specification"@,
        JourneyStage::Interrupted => "implement"@,
        JourneyStage::Draft | JourneyStage::SelectSlice | JourneyStage::ReplanSlice
        | JourneyStage::SplitBlocked | JourneyStage::MultipleSlices | JourneyStage::NoSlices
        | JourneyStage::BoundaryBlocked | JourneyStage::NeedsReview => "review"@,
        JourneyStage::Finalized | JourneyStage::ReadyToFinalize => "complete"@,
        JourneyStage::ImplementationBlocked | JourneyStage::ReadyToStart => "implement"@,
        JourneyStage::AwaitingApproval => "approve"@,
        JourneyStage::InProgress => "verify"@,
    }
}

/// The primary action of each stage.
pub open spec fn stage_primary(s: JourneyStage) -> ActionSpec {
    match s {
        JourneyStage::NoWork => action_spec(
            "choose_specification"@,
            "Open Specifications"@,
            "journey.action.choose_specification"@,
            "Choose a target from Specifications before creating Work."@,
            "journey.explanation.choose_specification"@,
            false,
        ),
        JourneyStage::Interrupted => cancel_action_spec(),
        JourneyStage::Draft => action_spec(
            "prepare"@,
            "Prepare a safe plan"@,
            "journey.action.prepare"@,
            "We will explain the proposed change and check it before asking for approval."@,
            "journey.explanation.prepare"@,
            false,
        ),
        JourneyStage::SelectSlice => action_spec(
            "select_slice"@,
            "Select a focused step"@,
            "journey.action.select_slice"@,
            "This Requirement criterion expands into independent execution slices. Select one exact slice to continue."@,
            "journey.explanation.select_slice"@,
            false,
        ),
        JourneyStage::ReplanSlice => action_spec(
            "select_slice"@,
            "Select a focused step"@,
            "journey.action.select_slice"@,
            "The broad candidate is blocked only by its slice limit. Select one exact step to replan it safely."@,
            "journey.explanation.select_slice"@,
            false,
        ),
        JourneyStage::SplitBlocked => action_spec(
            "choose_specification"@,
            "Choose another exact criterion"@,
            "journey.action.choose_specification"@,
            "This candidate is blocked; choose another Requirement criterion or return to its specification."@,
            "journey.explanation.choose_specification"@,
            false,
        ),
        JourneyStage::MultipleSlices | JourneyStage::NoSlices | JourneyStage::BoundaryBlocked => action_spec(
            "choose_specification"@,
            "Choose another exact origin"@,
            "journey.action.choose_specification"@,
            "This candidate cannot continue safely. Choose another exact origin or return to its specification."@,
            "journey.explanation.choose_specification"@,
            false,
        ),
        JourneyStage::Finalized => action_spec(
            "cancel"@,
            "Start another change"@,
            "journey.action.start_another"@,
            "This work is complete. Start a new change when you are ready."@,
            "journey.explanation.start_another"@,
            false,
        ),
        JourneyStage::ReadyToFinalize => action_spec(
            "finalize"@,
            "Confirm completion"@,
            "journey.action.finalize"@,
            "Confirm the checked change after reviewing the completion evidence."@,
            "journey.explanation.finalize"@,
            true,
        ),
        JourneyStage::ImplementationBlocked => action_spec(
            "retry"@,
            "Start a new implementation run"@,
            "journey.action.retry"@,
            "Resolve the reported blocker, then start a new run in the approved scope."@,
            "journey.explanation.retry"@,
            true,
        ),
        JourneyStage::NeedsReview => action_spec(
            "prepare"@,
            "Review the plan again"@,
            "journey.action.prepare"@,
            "The plan needs a successful safety check before it can be approved."@,
            "journey.explanation.prepare"@,
            false,
        ),
        JourneyStage::AwaitingApproval => action_spec(
            "approve"@,
            "Approve this plan"@,
            "journey.action.approve"@,
            "Approval fixes the bounded change before implementation can begin."@,
            "journey.explanation.approve"@,
            true,
        ),
        JourneyStage::ReadyToStart => action_spec(
            "start"@,
            "Start implementation"@,
            "journey.action.start"@,
            "Implementation is limited to the approved scope."@,
            "journey.explanation.start"@,
            true,
        ),
        JourneyStage::InProgress => action_spec(
            "verify"@,
            "Check the completed change"@,
            "journey.action.verify"@,
            "Run the approved completion checks and show the evidence."@,
            "journey.explanation.verify"@,
            false,
        ),
    }
}

/// Whether a stage offers cancel as its recovery action.
pub open spec fn stage_has_recovery(s: JourneyStage) -> bool {
    !(s == JourneyStage::NoWork || s == JourneyStage::Interrupted || s == JourneyStage::Finalized)
}

/// The evidence status of each stage.
pub open spec fn stage_evidence_status(s: JourneyStage) -> Seq<char> {
    match s {
        JourneyStage::NoWork => "not_started"@,
        JourneyStage::Interrupted => "recovery_required"@,
        JourneyStage::Draft => "draft"@,
        JourneyStage::SelectSlice | JourneyStage::ReplanSlice => "split_required"@,
        JourneyStage::SplitBlocked | JourneyStage::MultipleSlices | JourneyStage::NoSlices
        | JourneyStage::BoundaryBlocked => "blocked"@,
        JourneyStage::Finalized => "complete"@,
        JourneyStage::ReadyToFinalize => "ready"@,
        JourneyStage::ImplementationBlocked => "implementation_blocked"@,
        JourneyStage::NeedsReview => "needs_attention"@,
        JourneyStage::AwaitingApproval => "reviewed"@,
        JourneyStage::ReadyToStart => "approved"@,
        JourneyStage::InProgress => "in_progress"@,
    }
}

/// The evidence summary of each stage; `reason` is the split-recovery reason.
pub open spec fn stage_evidence_summary(s: JourneyStage, reason: Seq<char>) -> Seq<char> {
    match s {
        JourneyStage::NoWork => "No work has been started yet."@,
        JourneyStage::Interrupted => "A durable implementation run is still present. Cancel it to record abandonment before starting new work."@,
        JourneyStage::Draft => "An exact origin has been selected; its scope has not been approved."@,
        JourneyStage::SelectSlice => "Select one exact execution slice for the linked Requirement criterion."@,
        JourneyStage::ReplanSlice | JourneyStage::SplitBlocked => reason,
        JourneyStage::MultipleSlices => "The proposed change needs separate focused steps."@,
        JourneyStage::NoSlices => "We could not find a safe executable change for this exact origin."@,
        JourneyStage::BoundaryBlocked => "The proposed change cannot be prepared safely yet."@,
        JourneyStage::Finalized => "The approved change and its completion evidence were recorded."@,
        JourneyStage::ReadyToFinalize => "Verification evidence is ready for confirmation."@,
        JourneyStage::ImplementationBlocked => "Implementation could not be verified; resolve the blocker before retrying."@,
        JourneyStage::NeedsReview => "Resolve the plan review findings before continuing."@,
        JourneyStage::AwaitingApproval => "The proposed scope passed its safety check."@,
        JourneyStage::ReadyToStart => "The scope is approved and ready for implementation."@,
        JourneyStage::InProgress => "Implementation is in progress inside the approved scope."@,
    }
}

/// The evidence blockers of each stage.
pub open spec fn stage_blockers(s: JourneyStage, i: JourneyInput) -> Seq<BlockerSpec> {
    match s {
        JourneyStage::SplitBlocked => seq![
            BlockerSpec {
                message: i.split_recovery->0.reason_message@,
                next_action: "Choose another exact Requirement criterion or return to its specification."@,
            },
        ],
        JourneyStage::MultipleSlices => seq![
            BlockerSpec {
                message: "This change needs separate focused steps."@,
                next_action: "Choose one focused execution slice to change first."@,
            },
        ],
        JourneyStage::NoSlices => seq![
            BlockerSpec {
                message: "This Requirement criterion does not yet have a bounded implementation path."@,
                next_action: "Choose a related Requirement criterion or add its implementation guidance."@,
            },
        ],
        JourneyStage::BoundaryBlocked => seq![
            BlockerSpec {
                message: "The change boundary needs attention before implementation can begin."@,
                next_action: "Choose a smaller related Requirement criterion and review it again."@,
            },
        ],
        _ => if is_execution_stage(s) && i.completed is Some {
            i.completed->0.blockers@.map_values(|b: JourneyBlockerView| b@)
        } else {
            Seq::empty()
        },
    }
}

/// The sum of a sequence of counts.
pub open spec fn sum_counts(s: Seq<usize>) -> nat
    decreases s.len(),
{
    if s.len() == 0 {
        0
    } else {
        sum_counts(s.drop_last()) + s.last() as nat
    }
}

pub open spec fn recovery_counts(r: JourneyRecovery) -> Seq<usize> {
    r.candidates@.map_values(|c: JourneyRecoveryCandidate| c.editable_target_count)
}

/// The change boundary shown for each stage.
pub open spec fn stage_scope(s: JourneyStage, i: JourneyInput) -> Option<ScopeSpec> {
    if s == JourneyStage::SelectSlice {
        Some(
            ScopeSpec {
                summary: crate::text::decimal(plan_slice_count(i) as nat) + " focused slices are available."@,
                status: "split-required"@,
                editable_target_count: sum_counts(i.plan->0.slice_editable_counts@),
                slice_count: plan_slice_count(i) as nat,
            },
        )
    } else if s == JourneyStage::ReplanSlice {
        Some(
            ScopeSpec {
                summary: crate::text::decimal(i.split_recovery->0.candidates@.len())
                    + " focused slices can be replanned."@,
                status: "split-required"@,
                editable_target_count: sum_counts(recovery_counts(i.split_recovery->0)),
                slice_count: i.split_recovery->0.candidates@.len(),
            },
        )
    } else if is_execution_stage(s) {
        Some(
            ScopeSpec {
                summary: crate::text::decimal(plan_slice_count(i) as nat) + " focused change"@ + (if plan_slice_count(i)
                    == 1 {
                    ""@
                } else {
                    "s"@
                }) + " are proposed."@,
                status: if i.approved {
                    "approved"@
                } else {
                    "proposed"@
                },
                editable_target_count: sum_counts(i.plan->0.slice_editable_counts@),
                slice_count: plan_slice_count(i) as nat,
            },
        )
    } else {
        None
    }
}

/// The identifiers shown for each stage.
pub open spec fn stage_advanced(s: JourneyStage, i: JourneyInput) -> AdvancedSpec {
    if s == JourneyStage::NoWork || s == JourneyStage::Interrupted {
        AdvancedSpec {
            request_id: None,
            plan_id: None,
            selected_slice_id: None,
            attempt_id: None,
            specification_anchor: None,
        }
    } else {
        AdvancedSpec {
            attempt_id: if is_execution_stage(s) && i.completed is Some {
                Some(i.completed->0.attempt_id@)
            } else {
                None
            },
            ..i.advanced@
        }
    }
}

/// The complete journey view.
pub open spec fn spec_journey_view(i: JourneyInput) -> JourneySpec {
    let s = spec_journey_stage(i);
    JourneySpec {
        title: if s == JourneyStage::NoWork {
            "Choose a specification to create Work"@
        } else if s == JourneyStage::Interrupted {
            "Interrupted implementation"@
        } else {
            i.title@
        },
        title_key: if s == JourneyStage::NoWork {
            Some("journey.title.select_specification"@)
        } else {
            None
        },
        current_step: stage_step(s),
        steps: spec_journey_steps(stage_step(s)),
        primary_action: stage_primary(s),
        recovery_action: if stage_has_recovery(s) {
            Some(cancel_action_spec())
        } else {
            None
        },
        approved_scope: stage_scope(s, i),
        evidence: EvidenceSpec {
            status: stage_evidence_status(s),
            summary: stage_evidence_summary(
                s,
                if i.split_recovery is Some {
                    i.split_recovery->0.reason_message@
                } else {
                    Seq::empty()
                },
            ),
            blockers: stage_blockers(s, i),
        },
        related_specification: if s == JourneyStage::NoWork || s == JourneyStage::Interrupted {
            None
        } else {
            opt_specification_view(i.related_specification)
        },
        advanced: stage_advanced(s, i),
    }
}

/// Whether the counts a journey view adds up fit in a `usize`.
pub open spec fn journey_counts_fit(i: JourneyInput) -> bool {
    &&& i.plan is Some ==> sum_counts(i.plan->0.slice_editable_counts@) <= usize::MAX
    &&& i.split_recovery is Some ==> sum_counts(recovery_counts(i.split_recovery->0))
        <= usize::MAX
}


// ---------------------------------------------------------------------------
// Building the view

fn make_action(
    action: &str,
    label: &str,
    label_key: &str,
    explanation: &str,
    explanation_key: &str,
    confirmation_required: bool,
) -> (r: JourneyActionView)
    ensures
        r@ == action_spec(action@, label@, label_key@, explanation@, explanation_key@, confirmation_required),
{
    JourneyActionView {
        action: owned(action),
        label: owned(label),
        label_key: owned(label_key),
        explanation: owned(explanation),
        explanation_key: owned(explanation_key),
        confirmation_required,
        enabled: true,
    }
}

/// The cancel action.
pub fn cancel_action() -> (r: JourneyActionView)
    ensures
        r@ == cancel_action_spec(),
{
    make_action(
        "cancel",
        "Cancel this work",
        "journey.action.cancel",
        "This stops the current journey. Changes already written to files are not undone.",
        "journey.explanation.cancel",
        true,
    )
}

fn primary_action(s: JourneyStage) -> (r: JourneyActionView)
    ensures
        r@ == stage_primary(s),
{
    match s {
        JourneyStage::NoWork => make_action(
            "choose_specification",
            "Open Specifications",
            "journey.action.choose_specification",
            "Choose a target from Specifications before creating Work.",
            "journey.explanation.choose_specification",
            false,
        ),
        JourneyStage::Interrupted => cancel_action(),
        JourneyStage::Draft => make_action(
            "prepare",
            "Prepare a safe plan",
            "journey.action.prepare",
            "We will explain the proposed change and check it before asking for approval.",
            "journey.explanation.prepare",
            false,
        ),
        JourneyStage::SelectSlice => make_action(
            "select_slice",
            "Select a focused step",
            "journey.action.select_slice",
            "This Requirement criterion expands into independent execution slices. Select one exact slice to continue.",
            "journey.explanation.select_slice",
            false,
        ),
        JourneyStage::ReplanSlice => make_action(
            "select_slice",
            "Select a focused step",
            "journey.action.select_slice",
            "The broad candidate is blocked only by its slice limit. Select one exact step to replan it safely.",
            "journey.explanation.select_slice",
            false,
        ),
        JourneyStage::SplitBlocked => make_action(
            "choose_specification",
            "Choose another exact criterion",
            "journey.action.choose_specification",
            "This candidate is blocked; choose another Requirement criterion or return to its specification.",
            "journey.explanation.choose_specification",
            false,
        ),
        JourneyStage::MultipleSlices | JourneyStage::NoSlices | JourneyStage::BoundaryBlocked => make_action(
            "choose_specification",
            "Choose another exact origin",
            "journey.action.choose_specification",
            "This candidate cannot continue safely. Choose another exact origin or return to its specification.",
            "journey.explanation.choose_specification",
            false,
        ),
        JourneyStage::Finalized => make_action(
            "cancel",
            "Start another change",
            "journey.action.start_another",
            "This work is complete. Start a new change when you are ready.",
            "journey.explanation.start_another",
            false,
        ),
        JourneyStage::ReadyToFinalize => make_action(
            "finalize",
            "Confirm completion",
            "journey.action.finalize",
            "Confirm the checked change after reviewing the completion evidence.",
            "journey.explanation.finalize",
            true,
        ),
        JourneyStage::ImplementationBlocked => make_action(
            "retry",
            "Start a new implementation run",
            "journey.action.retry",
            "Resolve the reported blocker, then start a new run in the approved scope.",
            "journey.explanation.retry",
            true,
        ),
        JourneyStage::NeedsReview => make_action(
            "prepare",
            "Review the plan again",
            "journey.action.prepare",
            "The plan needs a successful safety check before it can be approved.",
            "journey.explanation.prepare",
            false,
        ),
        JourneyStage::AwaitingApproval => make_action(
            "approve",
            "Approve this plan",
            "journey.action.approve",
            "Approval fixes the bounded change before implementation can begin.",
            "journey.explanation.approve",
            true,
        ),
        JourneyStage::ReadyToStart => make_action(
            "start",
            "Start implementation",
            "journey.action.start",
            "Implementation is limited to the approved scope.",
            "journey.explanation.start",
            true,
        ),
        JourneyStage::InProgress => make_action(
            "verify",
            "Check the completed change",
            "journey.action.verify",
            "Run the approved completion checks and show the evidence.",
            "journey.explanation.verify",
            false,
        ),
    }
}

fn step_of(s: JourneyStage) -> (r: String)
    ensures
        r@ == stage_step(s),
{
    match s {
        JourneyStage::NoWork => owned("select_specification"),
        JourneyStage::Interrupted => owned("implement"),
        JourneyStage::Draft | JourneyStage::SelectSlice | JourneyStage::ReplanSlice
        | JourneyStage::SplitBlocked | JourneyStage::MultipleSlices | JourneyStage::NoSlices
        | JourneyStage::BoundaryBlocked | JourneyStage::NeedsReview => owned("review"),
        JourneyStage::Finalized | JourneyStage::ReadyToFinalize => owned("complete"),
        JourneyStage::ImplementationBlocked | JourneyStage::ReadyToStart => owned("implement"),
        JourneyStage::AwaitingApproval => owned("approve"),
        JourneyStage::InProgress => owned("verify"),
    }
}

fn evidence_status(s: JourneyStage) -> (r: String)
    ensures
        r@ == stage_evidence_status(s),
{
    match s {
        JourneyStage::NoWork => owned("not_started"),
        JourneyStage::Interrupted => owned("recovery_required"),
        JourneyStage::Draft => owned("draft"),
        JourneyStage::SelectSlice | JourneyStage::ReplanSlice => owned("split_required"),
        JourneyStage::SplitBlocked | JourneyStage::MultipleSlices | JourneyStage::NoSlices
        | JourneyStage::BoundaryBlocked => owned("blocked"),
        JourneyStage::Finalized => owned("complete"),
        JourneyStage::ReadyToFinalize => owned("ready"),
        JourneyStage::ImplementationBlocked => owned("implementation_blocked"),
        JourneyStage::NeedsReview => owned("needs_attention"),
        JourneyStage::AwaitingApproval => owned("reviewed"),
        JourneyStage::ReadyToStart => owned("approved"),
        JourneyStage::InProgress => owned("in_progress"),
    }
}

fn evidence_summary(s: JourneyStage, reason: &str) -> (r: String)
    ensures
        r@ == stage_evidence_summary(s, reason@),
{
    match s {
        JourneyStage::NoWork => owned("No work has been started yet."),
        JourneyStage::Interrupted => owned("A durable implementation run is still present. Cancel it to record abandonment before starting new work."),
        JourneyStage::Draft => owned("An exact origin has been selected; its scope has not been approved."),
        JourneyStage::SelectSlice => owned("Select one exact execution slice for the linked Requirement criterion."),
        JourneyStage::ReplanSlice | JourneyStage::SplitBlocked => owned(reason),
        JourneyStage::MultipleSlices => owned("The proposed change needs separate focused steps."),
        JourneyStage::NoSlices => owned("We could not find a safe executable change for this exact origin."),
        JourneyStage::BoundaryBlocked => owned("The proposed change cannot be prepared safely yet."),
        JourneyStage::Finalized => owned("The approved change and its completion evidence were recorded."),
        JourneyStage::ReadyToFinalize => owned("Verification evidence is ready for confirmation."),
        JourneyStage::ImplementationBlocked => owned("Implementation could not be verified; resolve the blocker before retrying."),
        JourneyStage::NeedsReview => owned("Resolve the plan review findings before continuing."),
        JourneyStage::AwaitingApproval => owned("The proposed scope passed its safety check."),
        JourneyStage::ReadyToStart => owned("The scope is approved and ready for implementation."),
        JourneyStage::InProgress => owned("Implementation is in progress inside the approved scope."),
    }
}

fn blocker(message: &str, next_action: &str) -> (r: JourneyBlockerView)
    ensures
        r@ == (BlockerSpec { message: message@, next_action: next_action@ }),
{
    JourneyBlockerView { message: owned(message), next_action: owned(next_action) }
}

fn one_blocker(b: JourneyBlockerView) -> (r: Vec<JourneyBlockerView>)
    ensures
        r@.map_values(|x: JourneyBlockerView| x@) == seq![b@],
{
    let mut r: Vec<JourneyBlockerView> = Vec::new();
    r.push(b);
    assert(r@.map_values(|x: JourneyBlockerView| x@) =~= seq![b@]);
    r
}

proof fn lemma_sum_prefix(s: Seq<usize>, i: int)
    requires
        0 <= i <= s.len(),
    ensures
        sum_counts(s.take(i)) <= sum_counts(s),
    decreases s.len() - i,
{
    if i < s.len() {
        lemma_sum_prefix(s, i + 1);
        assert(s.take(i + 1).drop_last() =~= s.take(i));
    } else {
        assert(s.take(i) =~= s);
    }
}

/// The sum of `counts`.
pub fn sum_usize(counts: &Vec<usize>) -> (r: usize)
    requires
        sum_counts(counts@) <= usize::MAX,
    ensures
        r as nat == sum_counts(counts@),
{
    let mut total: usize = 0;
    let mut i: usize = 0;
    assert(counts@.take(0) =~= Seq::<usize>::empty());
    while i < counts.len()
        invariant
            i <= counts.len(),
            total as nat == sum_counts(counts@.take(i as int)),
            sum_counts(counts@) <= usize::MAX,
        decreases counts.len() - i,
    {
        proof {
            lemma_sum_prefix(counts@, i + 1);
            assert(counts@.take(i + 1).drop_last() =~= counts@.take(i as int));
        }
        total = total + counts[i];
        i = i + 1;
    }
    assert(counts@.take(counts.len() as int) =~= counts@);
    total
}

fn candidate_counts(r: &JourneyRecovery) -> (c: Vec<usize>)
    ensures
        c@ == recovery_counts(*r),
{
    let mut c: Vec<usize> = Vec::new();
    let mut k: usize = 0;
    while k < r.candidates.len()
        invariant
            k <= r.candidates.len(),
            c@ == recovery_counts(*r).take(k as int),
        decreases r.candidates.len() - k,
    {
        c.push(r.candidates[k].editable_target_count);
        k = k + 1;
        assert(c@ =~= recovery_counts(*r).take(k as int));
    }
    assert(recovery_counts(*r).take(r.candidates.len() as int) =~= recovery_counts(*r));
    c
}

fn scope_for(s: JourneyStage, i: &JourneyInput) -> (r: Option<JourneyScopeView>)
    requires
        s == spec_journey_stage(*i),
        journey_counts_fit(*i),
    ensures
        opt_scope_view(r) == stage_scope(s, *i),
{
    if s == JourneyStage::SelectSlice {
        let plan = i.plan.as_ref().unwrap();
        let n = plan.slice_editable_counts.len();
        let mut summary = usize_to_decimal(n);
        summary.append(" focused slices are available.");
        Some(
            JourneyScopeView {
                summary,
                status: owned("split-required"),
                editable_target_count: sum_usize(&plan.slice_editable_counts),
                slice_count: n,
            },
        )
    } else if s == JourneyStage::ReplanSlice {
        let recovery = i.split_recovery.as_ref().unwrap();
        let m = recovery.candidates.len();
        let mut summary = usize_to_decimal(m);
        summary.append(" focused slices can be replanned.");
        let counts = candidate_counts(recovery);
        Some(
            JourneyScopeView {
                summary,
                status: owned("split-required"),
                editable_target_count: sum_usize(&counts),
                slice_count: m,
            },
        )
    } else if is_execution_stage_exec(s) {
        let plan = i.plan.as_ref().unwrap();
        let n = plan.slice_editable_counts.len();
        let mut summary = usize_to_decimal(n);
        summary.append(" focused change");
        if n != 1 {
            summary.append("s");
        } else {
            summary.append("");
        }
        summary.append(" are proposed.");
        Some(
            JourneyScopeView {
                summary,
                status: if i.approved {
                    owned("approved")
                } else {
                    owned("proposed")
                },
                editable_target_count: sum_usize(&plan.slice_editable_counts),
                slice_count: n,
            },
        )
    } else {
        None
    }
}

fn is_execution_stage_exec(s: JourneyStage) -> (r: bool)
    ensures
        r == is_execution_stage(s),
{
    match s {
        JourneyStage::Finalized | JourneyStage::ReadyToFinalize
        | JourneyStage::ImplementationBlocked | JourneyStage::NeedsReview
        | JourneyStage::AwaitingApproval | JourneyStage::ReadyToStart
        | JourneyStage::InProgress => true,
        _ => false,
    }
}


fn blockers_for(s: JourneyStage, reason: &str, attempt_blockers: Vec<JourneyBlockerView>) -> (r: Vec<JourneyBlockerView>)
    ensures
        r@.map_values(|b: JourneyBlockerView| b@) == (match s {
            JourneyStage::SplitBlocked => seq![
                BlockerSpec {
                    message: reason@,
                    next_action: "Choose another exact Requirement criterion or return to its specification."@,
                },
            ],
            JourneyStage::MultipleSlices => seq![
                BlockerSpec {
                    message: "This change needs separate focused steps."@,
                    next_action: "Choose one focused execution slice to change first."@,
                },
            ],
            JourneyStage::NoSlices => seq![
                BlockerSpec {
                    message: "This Requirement criterion does not yet have a bounded implementation path."@,
                    next_action: "Choose a related Requirement criterion or add its implementation guidance."@,
                },
            ],
            JourneyStage::BoundaryBlocked => seq![
                BlockerSpec {
                    message: "The change boundary needs attention before implementation can begin."@,
                    next_action: "Choose a smaller related Requirement criterion and review it again."@,
                },
            ],
            _ => if is_execution_stage(s) {
                attempt_blockers@.map_values(|b: JourneyBlockerView| b@)
            } else {
                Seq::empty()
            },
        }),
{
    match s {
        JourneyStage::SplitBlocked => one_blocker(
            blocker(reason, "Choose another exact Requirement criterion or return to its specification."),
        ),
        JourneyStage::MultipleSlices => one_blocker(
            blocker("This change needs separate focused steps.", "Choose one focused execution slice to change first."),
        ),
        JourneyStage::NoSlices => one_blocker(
            blocker(
                "This Requirement criterion does not yet have a bounded implementation path.",
                "Choose a related Requirement criterion or add its implementation guidance.",
            ),
        ),
        JourneyStage::BoundaryBlocked => one_blocker(
            blocker(
                "The change boundary needs attention before implementation can begin.",
                "Choose a smaller related Requirement criterion and review it again.",
            ),
        ),
        _ => if is_execution_stage_exec(s) {
            attempt_blockers
        } else {
            let r: Vec<JourneyBlockerView> = Vec::new();
            assert(r@.map_values(|b: JourneyBlockerView| b@) =~= Seq::<BlockerSpec>::empty());
            r
        },
    }
}

/// The journey view of the given work state.
pub fn journey_view(input: JourneyInput) -> (r: WorkJourneyView)
    requires
        journey_counts_fit(input),
    ensures
        r@ == spec_journey_view(input),
{
    let ghost gi = input;
    let s = journey_stage(&input);
    let approved_scope = scope_for(s, &input);
    let current_step = step_of(s);
    let steps = journey_steps(current_step.as_str());
    let primary_action = primary_action(s);
    let recovery_action = if !(s == JourneyStage::NoWork || s == JourneyStage::Interrupted
        || s == JourneyStage::Finalized) {
        Some(cancel_action())
    } else {
        None
    };
    let reason = match &input.split_recovery {
        Some(r) => owned(r.reason_message.as_str()),
        None => String::new(),
    };
    let status = evidence_status(s);
    let summary = evidence_summary(s, reason.as_str());
    let JourneyInput { title, related_specification, advanced, completed, .. } = input;
    let (attempt_id, attempt_blockers) = match completed {
        Some(a) => (Some(a.attempt_id), a.blockers),
        None => (None, Vec::new()),
    };
    proof {
        if gi.completed is None {
            assert(attempt_blockers@.map_values(|b: JourneyBlockerView| b@) =~= Seq::<BlockerSpec>::empty());
        }
    }
    let blockers = blockers_for(s, reason.as_str(), attempt_blockers);
    let no_work = s == JourneyStage::NoWork;
    let interrupted = s == JourneyStage::Interrupted;
    let title = if no_work {
        owned("Choose a specification to create Work")
    } else if interrupted {
        owned("Interrupted implementation")
    } else {
        title
    };
    let title_key = if no_work {
        Some(owned("journey.title.select_specification"))
    } else {
        None
    };
    let related_specification = if no_work || interrupted {
        None
    } else {
        related_specification
    };
    let advanced = if no_work || interrupted {
        JourneyAdvancedView {
            request_id: None,
            plan_id: None,
            selected_slice_id: None,
            attempt_id: None,
            specification_anchor: None,
        }
    } else {
        JourneyAdvancedView {
            request_id: advanced.request_id,
            plan_id: advanced.plan_id,
            selected_slice_id: advanced.selected_slice_id,
            attempt_id: if is_execution_stage_exec(s) {
                attempt_id
            } else {
                None
            },
            specification_anchor: advanced.specification_anchor,
        }
    };
    let r = WorkJourneyView {
        title,
        title_key,
        current_step,
        steps,
        primary_action,
        recovery_action,
        approved_scope,
        evidence: JourneyEvidenceView { status, summary, blockers },
        related_specification,
        advanced,
    };
    assert(r@.evidence == spec_journey_view(gi).evidence);
    assert(r@.advanced == spec_journey_view(gi).advanced);
    r
}

/// The journey shown when no work has been started.
pub fn empty_journey() -> (r: WorkJourneyView)
    ensures
        r@ == (JourneySpec {
            title: "Choose a specification to create Work"@,
            title_key: Some("journey.title.select_specification"@),
            current_step: "select_specification"@,
            steps: spec_journey_steps("select_specification"@),
            primary_action: stage_primary(JourneyStage::NoWork),
            recovery_action: None,
            approved_scope: None,
            evidence: EvidenceSpec {
                status: "not_started"@,
                summary: "No work has been started yet."@,
                blockers: Seq::empty(),
            },
            related_specification: None,
            advanced: AdvancedSpec {
                request_id: None,
                plan_id: None,
                selected_slice_id: None,
                attempt_id: None,
                specification_anchor: None,
            },
        }),
{
    let blockers: Vec<JourneyBlockerView> = Vec::new();
    let r = WorkJourneyView {
        title: owned("Choose a specification to create Work"),
        title_key: Some(owned("journey.title.select_specification")),
        current_step: owned("select_specification"),
        steps: journey_steps("select_specification"),
        primary_action: primary_action(JourneyStage::NoWork),
        recovery_action: None,
        approved_scope: None,
        evidence: JourneyEvidenceView {
            status: owned("not_started"),
            summary: owned("No work has been started yet."),
            blockers,
        },
        related_specification: None,
        advanced: JourneyAdvancedView {
            request_id: None,
            plan_id: None,
            selected_slice_id: None,
            attempt_id: None,
            specification_anchor: None,
        },
    };
    assert(r@.evidence.blockers =~= Seq::<BlockerSpec>::empty());
    r
}

// ---------------------------------------------------------------------------
// Laws of the journey

/// No journey offers approval, or stands at the approval step, before the
/// plan's safety check has passed; and a single ready slice whose check
/// has not passed, with no attempt and no blocked run, is reviewed again:
/// at the review step, with preparing as its action and its evidence
/// needing attention, whether or not it was approved.
pub proof fn lemma_approval_needs_validation(i: JourneyInput)
    ensures
        spec_journey_view(i).primary_action.action == "approve"@ ==> i.validation_passed,
        spec_journey_view(i).current_step == "approve"@ ==> i.validation_passed,
        ({
            &&& i.has_request
            &&& i.plan matches Some(p) && p.ready && p.slice_editable_counts@.len() == 1
            &&& i.completed is None
            &&& i.agent != Some(AgentRunStatus::Blocked)
            &&& !i.validation_passed
        }) ==> {
            &&& spec_journey_view(i).current_step == "review"@
            &&& spec_journey_view(i).primary_action.action == "prepare"@
            &&& spec_journey_view(i).evidence.status == "needs_attention"@
        },
{
    reveal_strlit("approve");
    reveal_strlit("prepare");
    reveal_strlit("review");
    reveal_strlit("choose_specification");
    reveal_strlit("cancel");
    reveal_strlit("select_slice");
    reveal_strlit("finalize");
    reveal_strlit("retry");
    reveal_strlit("start");
    reveal_strlit("verify");
    reveal_strlit("select_specification");
    reveal_strlit("implement");
    reveal_strlit("complete");
    let s = spec_journey_stage(i);
    if s != JourneyStage::AwaitingApproval {
        assert(stage_primary(s).action != "approve"@) by {
            let a = stage_primary(s).action;
            assert(a == "choose_specification"@ || a == "cancel"@ || a == "prepare"@ || a == "select_slice"@
                || a == "finalize"@ || a == "retry"@ || a == "start"@ || a == "verify"@);
            assert("prepare"@[0] != "approve"@[0]);
            assert("choose_specification"@.len() != "approve"@.len());
            assert("cancel"@.len() != "approve"@.len());
            assert("select_slice"@.len() != "approve"@.len());
            assert("finalize"@.len() != "approve"@.len());
            assert("retry"@.len() != "approve"@.len());
            assert("start"@.len() != "approve"@.len());
            assert("verify"@.len() != "approve"@.len());
        }
        assert(stage_step(s) != "approve"@) by {
            if stage_step(s) == "review"@ {
                assert("review"@.len() != "approve"@.len());
            } else if stage_step(s) == "implement"@ {
                assert("implement"@.len() != "approve"@.len());
            } else if stage_step(s) == "complete"@ {
                assert("complete"@.len() != "approve"@.len());
            } else if stage_step(s) == "verify"@ {
                assert("verify"@.len() != "approve"@.len());
            } else if stage_step(s) == "select_specification"@ {
                assert("select_specification"@.len() != "approve"@.len());
            }
        }
    }
}

/// Implementation starts only from a plan that passed its check and was
/// approved, with no run yet; completion is confirmed only for a complete
/// attempt; and a journey is at the complete step only once an attempt is
/// complete or finalized.
pub proof fn lemma_actions_follow_the_evidence(i: JourneyInput)
    ensures
        spec_journey_view(i).primary_action.action == "start"@ ==> i.validation_passed && i.approved && i.agent
            is None,
        spec_journey_view(i).primary_action.action == "finalize"@ ==> (i.completed matches Some(c) && c.complete),
        spec_journey_view(i).current_step == "complete"@ ==> (i.completed matches Some(c) && (c.complete
            || c.finalized)),
{
    reveal_strlit("approve");
    reveal_strlit("prepare");
    reveal_strlit("review");
    reveal_strlit("choose_specification");
    reveal_strlit("cancel");
    reveal_strlit("select_slice");
    reveal_strlit("finalize");
    reveal_strlit("retry");
    reveal_strlit("start");
    reveal_strlit("verify");
    reveal_strlit("select_specification");
    reveal_strlit("implement");
    reveal_strlit("complete");
    let s = spec_journey_stage(i);
    let a = stage_primary(s).action;
    assert(a == "choose_specification"@ || a == "cancel"@ || a == "prepare"@ || a == "select_slice"@
        || a == "finalize"@ || a == "retry"@ || a == "start"@ || a == "verify"@ || a == "approve"@);
    assert("retry"@[0] != "start"@[0]);
    assert("choose_specification"@.len() != "start"@.len());
    assert("cancel"@.len() != "start"@.len());
    assert("prepare"@.len() != "start"@.len());
    assert("select_slice"@.len() != "start"@.len());
    assert("finalize"@.len() != "start"@.len());
    assert("verify"@.len() != "start"@.len());
    assert("approve"@.len() != "start"@.len());
    assert("choose_specification"@.len() != "finalize"@.len());
    assert("cancel"@.len() != "finalize"@.len());
    assert("prepare"@.len() != "finalize"@.len());
    assert("select_slice"@.len() != "finalize"@.len());
    assert("retry"@.len() != "finalize"@.len());
    assert("verify"@.len() != "finalize"@.len());
    assert("approve"@.len() != "finalize"@.len());
    let st = stage_step(s);
    assert(st == "select_specification"@ || st == "implement"@ || st == "review"@ || st == "complete"@
        || st == "approve"@ || st == "verify"@);
    assert("select_specification"@.len() != "complete"@.len());
    assert("implement"@.len() != "complete"@.len());
    assert("review"@.len() != "complete"@.len());
    assert("approve"@.len() != "complete"@.len());
    assert("verify"@.len() != "complete"@.len());
}

} // verus!
