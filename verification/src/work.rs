//! Work identities, journey actions and the checks a mutation passes before
//! the server applies it.
use vstd::prelude::*;
use crate::journey::WorkJourneyView;
use crate::text::{append, owned};

verus! {

/// The exact origin a unit of work starts from.  Anchors are held in their
/// canonical text form (`ITEM#kind.local`, `ITEM#binding.b/target.t`).
#[derive(Debug, Clone)]
pub enum WorkOrigin {
    RequirementCriterion { criterion: String },
    FeatureImplementationBinding { binding: String, criterion: String, targets: Vec<String> },
    FeatureImplementationTarget { target: String, binding: String, criterion: String },
}

/// The plan digest and slice that identify one execution.
#[derive(Debug, Clone)]
pub struct ExecutionIdentity {
    pub plan_digest: String,
    pub slice_id: String,
}

/// The workspace state a browser view was loaded from.
#[derive(Debug, Clone)]
pub struct MutationBasis {
    pub expected_revision: String,
    pub expected_workspace_fingerprint: String,
    pub expected_source_hash: String,
}

/// The identity of the server's current workspace snapshot.
#[derive(Debug, Clone)]
pub struct SnapshotIdentity {
    pub revision: String,
    pub fingerprint: String,
    pub source_hash: String,
}

/// A user-facing journey action.
#[derive(Debug, Clone)]
pub enum JourneyAction {
    Create { schema: String, origin: WorkOrigin, title: String },
    SelectSlice { schema: String, candidate_plan_digest: String, slice_id: String },
    Rename { title: String },
    Prepare,
    Approve { execution: ExecutionIdentity },
    Start { execution: ExecutionIdentity },
    Retry { execution: ExecutionIdentity },
    Verify { execution: ExecutionIdentity },
    Finalize { execution: ExecutionIdentity, attempt_id: String, preview_token: Option<String> },
    Restart,
    Cancel,
}

/// A journey action together with the basis it was issued against.
#[derive(Debug, Clone)]
pub enum JourneyActionCommand {
    Create { basis: MutationBasis, schema: String, origin: WorkOrigin, title: String },
    SelectSlice {
        basis: MutationBasis,
        schema: String,
        candidate_plan_digest: String,
        slice_id: String,
    },
    Rename { basis: MutationBasis, title: String },
    Prepare { basis: MutationBasis },
    Approve { basis: MutationBasis, execution: ExecutionIdentity },
    Start { basis: MutationBasis, execution: ExecutionIdentity },
    Retry { basis: MutationBasis, execution: ExecutionIdentity },
    Verify { basis: MutationBasis, execution: ExecutionIdentity },
    Finalize {
        basis: MutationBasis,
        execution: ExecutionIdentity,
        attempt_id: String,
        preview_token: Option<String>,
    },
    Restart { basis: MutationBasis },
    Cancel { basis: MutationBasis },
}

/// The basis a command carries.
pub open spec fn command_basis(c: JourneyActionCommand) -> MutationBasis {
    match c {
        JourneyActionCommand::Create { basis, .. } => basis,
        JourneyActionCommand::SelectSlice { basis, .. } => basis,
        JourneyActionCommand::Rename { basis, .. } => basis,
        JourneyActionCommand::Prepare { basis } => basis,
        JourneyActionCommand::Approve { basis, .. } => basis,
        JourneyActionCommand::Start { basis, .. } => basis,
        JourneyActionCommand::Retry { basis, .. } => basis,
        JourneyActionCommand::Verify { basis, .. } => basis,
        JourneyActionCommand::Finalize { basis, .. } => basis,
        JourneyActionCommand::Restart { basis } => basis,
        JourneyActionCommand::Cancel { basis } => basis,
    }
}

/// The action a command carries.
pub open spec fn command_action(c: JourneyActionCommand) -> JourneyAction {
    match c {
        JourneyActionCommand::Create { schema, origin, title, .. } => JourneyAction::Create {
            schema,
            origin,
            title,
        },
        JourneyActionCommand::SelectSlice { schema, candidate_plan_digest, slice_id, .. } =>
            JourneyAction::SelectSlice { schema, candidate_plan_digest, slice_id },
        JourneyActionCommand::Rename { title, .. } => JourneyAction::Rename { title },
        JourneyActionCommand::Prepare { .. } => JourneyAction::Prepare,
        JourneyActionCommand::Approve { execution, .. } => JourneyAction::Approve { execution },
        JourneyActionCommand::Start { execution, .. } => JourneyAction::Start { execution },
        JourneyActionCommand::Retry { execution, .. } => JourneyAction::Retry { execution },
        JourneyActionCommand::Verify { execution, .. } => JourneyAction::Verify { execution },
        JourneyActionCommand::Finalize { execution, attempt_id, preview_token, .. } =>
            JourneyAction::Finalize { execution, attempt_id, preview_token },
        JourneyActionCommand::Restart { .. } => JourneyAction::Restart,
        JourneyActionCommand::Cancel { .. } => JourneyAction::Cancel,
    }
}

impl JourneyActionCommand {
    /// Splits a command into its basis and its action.
    pub fn into_parts(self) -> (r: (MutationBasis, JourneyAction))
        ensures
            r.0 == command_basis(self),
            r.1 == command_action(self),
    {
        match self {
            JourneyActionCommand::Create { basis, schema, origin, title } => (
                basis,
                JourneyAction::Create { schema, origin, title },
            ),
            JourneyActionCommand::SelectSlice { basis, schema, candidate_plan_digest, slice_id } =>
                (basis, JourneyAction::SelectSlice { schema, candidate_plan_digest, slice_id }),
            JourneyActionCommand::Rename { basis, title } => (basis, JourneyAction::Rename { title }),
            JourneyActionCommand::Prepare { basis } => (basis, JourneyAction::Prepare),
            JourneyActionCommand::Approve { basis, execution } => (
                basis,
                JourneyAction::Approve { execution },
            ),
            JourneyActionCommand::Start { basis, execution } => (
                basis,
                JourneyAction::Start { execution },
            ),
            JourneyActionCommand::Retry { basis, execution } => (
                basis,
                JourneyAction::Retry { execution },
            ),
            JourneyActionCommand::Verify { basis, execution } => (
                basis,
                JourneyAction::Verify { execution },
            ),
            JourneyActionCommand::Finalize { basis, execution, attempt_id, preview_token } => (
                basis,
                JourneyAction::Finalize { execution, attempt_id, preview_token },
            ),
            JourneyActionCommand::Restart { basis } => (basis, JourneyAction::Restart),
            JourneyActionCommand::Cancel { basis } => (basis, JourneyAction::Cancel),
        }
    }
}

/// The action key the journey view names each action by.
pub open spec fn spec_action_key(a: JourneyAction) -> Seq<char> {
    match a {
        JourneyAction::Create { .. } => "create"@,
        JourneyAction::SelectSlice { .. } => "select_slice"@,
        JourneyAction::Rename { .. } => "rename"@,
        JourneyAction::Prepare => "prepare"@,
        JourneyAction::Approve { .. } => "approve"@,
        JourneyAction::Start { .. } => "start"@,
        JourneyAction::Retry { .. } => "retry"@,
        JourneyAction::Verify { .. } => "verify"@,
        JourneyAction::Finalize { .. } => "finalize"@,
        JourneyAction::Restart => "restart"@,
        JourneyAction::Cancel => "cancel"@,
    }
}

/// The key of an action.
pub fn journey_action_key(action: &JourneyAction) -> (r: String)
    ensures
        r@ == spec_action_key(*action),
{
    match action {
        JourneyAction::Create { .. } => owned("create"),
        JourneyAction::SelectSlice { .. } => owned("select_slice"),
        JourneyAction::Rename { .. } => owned("rename"),
        JourneyAction::Prepare => owned("prepare"),
        JourneyAction::Approve { .. } => owned("approve"),
        JourneyAction::Start { .. } => owned("start"),
        JourneyAction::Retry { .. } => owned("retry"),
        JourneyAction::Verify { .. } => owned("verify"),
        JourneyAction::Finalize { .. } => owned("finalize"),
        JourneyAction::Restart => owned("restart"),
        JourneyAction::Cancel => owned("cancel"),
    }
}

/// Whether an action reads its basis from the plan's revision only
/// (verification and finalization follow expected source edits).
pub open spec fn uses_execution_basis(a: JourneyAction) -> bool {
    a is Verify || a is Finalize
}

pub fn uses_execution_basis_exec(a: &JourneyAction) -> (r: bool)
    ensures
        r == uses_execution_basis(*a),
{
    match a {
        JourneyAction::Verify { .. } | JourneyAction::Finalize { .. } => true,
        _ => false,
    }
}

/// Whether the journey currently offers the action with key `key`, as its
/// primary action or as its recovery action.
pub open spec fn journey_offers(journey: WorkJourneyView, key: Seq<char>) -> bool {
    key == journey.primary_action.action@ || (journey.recovery_action is Some
        && journey.recovery_action->0.action@ == key)
}

/// The refusal message for an action the journey does not offer.
pub open spec fn transition_refusal(key: Seq<char>, expected: Seq<char>) -> Seq<char> {
    "journey action "@ + key + " is not available; the current next action is "@ + expected
}

/// A refused journey action: the HTTP status it is answered with and why.
#[derive(Debug, Clone)]
pub struct TransitionRefusal {
    pub status: u16,
    pub message: String,
}

/// The status of a journey action that the journey does not offer: a
/// conflict with the journey's current state.
pub open spec fn transition_conflict() -> u16 {
    409
}

/// Accepts an action only when the journey offers it; otherwise the action
/// conflicts with the journey's state and is refused with 409.
pub fn check_journey_transition(journey: &WorkJourneyView, action: &JourneyAction) -> (r: Result<
    (),
    TransitionRefusal,
>)
    ensures
        r is Ok <==> journey_offers(*journey, spec_action_key(*action)),
        r is Err ==> r->Err_0.status == transition_conflict() && r->Err_0.message@ == transition_refusal(
            spec_action_key(*action),
            journey.primary_action.action@,
        ),
{
    let requested = journey_action_key(action);
    let matches_primary = requested == journey.primary_action.action;
    let matches_recovery = match &journey.recovery_action {
        Some(recovery) => recovery.action == requested,
        None => false,
    };
    if !matches_primary && !matches_recovery {
        let mut message = owned("journey action ");
        append(&mut message, requested.as_str());
        append(&mut message, " is not available; the current next action is ");
        append(&mut message, journey.primary_action.action.as_str());
        return Err(TransitionRefusal { status: 409, message });
    }
    Ok(())
}

/// Refusal when a mutation does not name the source hash it expects.
pub open spec fn missing_source_hash_message() -> Seq<char> {
    "mutation requires expected_source_hash"@
}

/// Refusal when the workspace moved on since the view was loaded.
pub open spec fn workspace_changed_message() -> Seq<char> {
    "Workspace changed since this view was loaded. Refresh the projection before applying the operation."@
}

/// Refusal when the revision moved on since the plan was created.
pub open spec fn revision_changed_message() -> Seq<char> {
    "Workspace revision changed since this work plan was created. Refresh the projection and replan."@
}

/// A mutation applies only to the exact snapshot it was issued against.
pub fn check_mutation_basis(snapshot: &SnapshotIdentity, expected: &MutationBasis) -> (r: Result<
    (),
    String,
>)
    ensures
        expected.expected_source_hash@.len() == 0 ==> r is Err && r->Err_0@
            == missing_source_hash_message(),
        expected.expected_source_hash@.len() != 0 ==> (r is Ok <==> (snapshot.revision@
            == expected.expected_revision@ && snapshot.fingerprint@
            == expected.expected_workspace_fingerprint@ && snapshot.source_hash@
            == expected.expected_source_hash@)),
        expected.expected_source_hash@.len() != 0 && r is Err ==> r->Err_0@
            == workspace_changed_message(),
{
    if expected.expected_source_hash.as_str().is_empty() {
        return Err(owned("mutation requires expected_source_hash"));
    }
    if snapshot.revision != expected.expected_revision || snapshot.fingerprint
        != expected.expected_workspace_fingerprint || snapshot.source_hash
        != expected.expected_source_hash {
        return Err(
            owned(
                "Workspace changed since this view was loaded. Refresh the projection before applying the operation.",
            ),
        );
    }
    Ok(())
}

/// Execution actions need only the plan's revision to be current.
pub fn check_execution_basis(snapshot: &SnapshotIdentity, expected: &MutationBasis) -> (r: Result<
    (),
    String,
>)
    ensures
        r is Ok <==> (expected.expected_revision@.len() != 0 && snapshot.revision@
            == expected.expected_revision@),
        r is Err ==> r->Err_0@ == revision_changed_message(),
{
    if expected.expected_revision.as_str().is_empty() || snapshot.revision
        != expected.expected_revision {
        return Err(
            owned(
                "Workspace revision changed since this work plan was created. Refresh the projection and replan.",
            ),
        );
    }
    Ok(())
}

} // verus!
