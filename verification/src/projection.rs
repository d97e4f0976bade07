//! Small pieces of the workspace projection and of the edit commands:
//! navigation, action capabilities, trace query settings, the work impact
//! of an edit, and how a nested entity edit applies to its list.
use vstd::prelude::*;
use crate::text::{owned, str_eq};
use crate::work::MutationBasis;

verus! {

// ---------------------------------------------------------------------------
// Navigation

/// A page of the Workbench.
#[derive(Debug, Clone, Copy, PartialEq, Eq, Structural)]
pub enum WorkbenchPage {
    Work,
    Readiness,
    Scope,
    Specifications,
    Diagnostics,
    Settings,
}

/// The engine that serves the Workbench.
#[derive(Debug, Clone, Copy)]
pub struct WorkbenchEngine;

/// The navigation of the Workbench: the selected page and all pages.
#[derive(Debug, Clone)]
pub struct NavigationView {
    pub selected_page: WorkbenchPage,
    pub pages: Vec<WorkbenchPage>,
}

/// The pages, in the order the navigation shows them.
pub open spec fn spec_pages() -> Seq<WorkbenchPage> {
    seq![
        WorkbenchPage::Work,
        WorkbenchPage::Readiness,
        WorkbenchPage::Scope,
        WorkbenchPage::Specifications,
        WorkbenchPage::Diagnostics,
        WorkbenchPage::Settings,
    ]
}

/// The page shown first.
pub fn default_page() -> (r: WorkbenchPage)
    ensures
        r == WorkbenchPage::Work,
{
    WorkbenchPage::Work
}

/// The navigation with `selected` selected.
pub fn navigation(selected: WorkbenchPage) -> (r: NavigationView)
    ensures
        r.selected_page == selected,
        r.pages@ == spec_pages(),
{
    let pages = vec![
        WorkbenchPage::Work,
        WorkbenchPage::Readiness,
        WorkbenchPage::Scope,
        WorkbenchPage::Specifications,
        WorkbenchPage::Diagnostics,
        WorkbenchPage::Settings,
    ];
    assert(pages@ =~= spec_pages());
    NavigationView { selected_page: selected, pages }
}

// ---------------------------------------------------------------------------
// Capabilities

/// Whether an action can be taken now, and why not.
#[derive(Debug, Clone)]
pub struct ActionCapabilityView {
    pub id: String,
    pub enabled: bool,
    pub disabled_reason: Option<String>,
}

pub open spec fn capability_is(c: ActionCapabilityView, id: Seq<char>, enabled: bool, reason: Seq<char>) -> bool {
    &&& c.id@ == id
    &&& c.enabled == enabled
    &&& if enabled {
        c.disabled_reason is None
    } else {
        c.disabled_reason matches Some(r) && r@ == reason
    }
}

/// The capabilities of the Work page: planning needs a work request;
/// verification needs a ready plan with at least one slice.
pub fn work_capabilities(has_request: bool, plan_ready: bool, plan_slices: usize) -> (r: Vec<ActionCapabilityView>)
    ensures
        r@.len() == 2,
        capability_is(r@[0], "work.plan"@, has_request, "Select a WorkRequest before planning."@),
        capability_is(
            r@[1],
            "work.verify"@,
            plan_ready && plan_slices > 0,
            "Validate the selected plan before verification."@,
        ),
{
    let plan = ActionCapabilityView {
        id: owned("work.plan"),
        enabled: has_request,
        disabled_reason: if has_request {
            None
        } else {
            Some(owned("Select a WorkRequest before planning."))
        },
    };
    let verifiable = plan_ready && plan_slices > 0;
    let verify = ActionCapabilityView {
        id: owned("work.verify"),
        enabled: verifiable,
        disabled_reason: if verifiable {
            None
        } else {
            Some(owned("Validate the selected plan before verification."))
        },
    };
    vec![plan, verify]
}

/// A slice of the session's plan: its id and how many verification targets
/// it has.
pub struct SessionSlice {
    pub id: String,
    pub verification_targets: usize,
}

/// `k` is the first slice with id `id`.
pub open spec fn slice_at(slices: Seq<SessionSlice>, id: Seq<char>, k: int) -> bool {
    0 <= k < slices.len() && slices[k].id@ == id && forall|j: int| 0 <= j < k ==> (#[trigger] slices[j]).id@ != id
}

/// The first slice with id `id` has a verification target.
pub open spec fn slice_verifiable(slices: Seq<SessionSlice>, id: Seq<char>) -> bool {
    exists|k: int| #[trigger] slice_at(slices, id, k) && slices[k].verification_targets > 0
}

/// The session can verify: its plan is ready and validated, and the
/// selected slice is one of the plan's and has a verification target.
pub open spec fn session_verifiable(
    plan_ready: bool,
    validation_passed: bool,
    selected: Option<Seq<char>>,
    slices: Seq<SessionSlice>,
) -> bool {
    plan_ready && validation_passed && match selected {
        Some(id) => slice_verifiable(slices, id),
        None => false,
    }
}

/// `k` is the first capability with id `id`.
pub open spec fn capability_at(caps: Seq<ActionCapabilityView>, id: Seq<char>, k: int) -> bool {
    0 <= k < caps.len() && caps[k].id@ == id && forall|j: int| 0 <= j < k ==> (#[trigger] caps[j]).id@ != id
}

/// `after` is `before` with the first capability `id`, if any, set to
/// `enabled` and, when disabled, `reason`.
pub open spec fn capability_set(
    before: Seq<ActionCapabilityView>,
    after: Seq<ActionCapabilityView>,
    id: Seq<char>,
    enabled: bool,
    reason: Seq<char>,
) -> bool {
    &&& after.len() == before.len()
    &&& forall|j: int|
        0 <= j < before.len() && !capability_at(before, id, j) ==> #[trigger] after[j] == before[j]
    &&& forall|j: int| capability_at(before, id, j) ==> capability_is(#[trigger] after[j], id, enabled, reason)
}

fn find_capability(caps: &Vec<ActionCapabilityView>, id: &str) -> (r: Option<usize>)
    ensures
        match r {
            Some(k) => capability_at(caps@, id@, k as int),
            None => forall|k: int| !capability_at(caps@, id@, k),
        },
{
    let mut k: usize = 0;
    while k < caps.len()
        invariant
            k <= caps.len(),
            forall|j: int| 0 <= j < k ==> (#[trigger] caps@[j]).id@ != id@,
        decreases caps.len() - k,
    {
        if str_eq(caps[k].id.as_str(), id) {
            return Some(k);
        }
        k = k + 1;
    }
    proof {
        assert forall|k2: int| !capability_at(caps@, id@, k2) by {
            if capability_at(caps@, id@, k2) {
                assert(caps@[k2].id@ == id@);
            }
        }
    }
    None
}

fn set_capability(caps: &mut Vec<ActionCapabilityView>, id: &str, enabled: bool, reason: &str)
    ensures
        capability_set(old(caps)@, final(caps)@, id@, enabled, reason@),
{
    match find_capability(caps, id) {
        None => {},
        Some(k) => {
            let ghost before = caps@;
            let c = ActionCapabilityView {
                id: owned(id),
                enabled,
                disabled_reason: if enabled {
                    None
                } else {
                    Some(owned(reason))
                },
            };
            caps.set(k, c);
            proof {
                assert forall|j: int| capability_at(before, id@, j) implies j == k by {
                    if j < k {
                        assert(before[j].id@ == id@);
                    } else if j > k {
                        assert(before[k as int].id@ == id@);
                    }
                }
            }
        },
    }
}

/// Sets the Work page's capabilities for a session: planning needs a draft
/// request; verification needs a ready, validated plan and a selected slice
/// of it with a verification target.
pub fn session_capabilities(
    caps: &mut Vec<ActionCapabilityView>,
    has_request: bool,
    plan_ready: bool,
    validation_passed: bool,
    selected_slice: &Option<String>,
    slices: &Vec<SessionSlice>,
)
    ensures
        exists|mid: Seq<ActionCapabilityView>|
            capability_set(old(caps)@, mid, "work.plan"@, has_request, "Select a WorkRequest before planning."@)
                && capability_set(
                mid,
                final(caps)@,
                "work.verify"@,
                session_verifiable(
                    plan_ready,
                    validation_passed,
                    match selected_slice {
                        Some(s) => Some(s@),
                        None => None,
                    },
                    slices@,
                ),
                "Validate a selected verifiable slice before verification."@,
            ),
{
    set_capability(caps, "work.plan", has_request, "Select a WorkRequest before planning.");
    let ghost mid = caps@;
    let ghost sel = match selected_slice {
        Some(s) => Some(s@),
        None => None,
    };
    let mut verifiable = false;
    if plan_ready && validation_passed {
        if let Some(id) = selected_slice {
            let mut k: usize = 0;
            while k < slices.len()
                invariant_except_break
                    !verifiable,
                invariant
                    k <= slices.len(),
                    plan_ready && validation_passed,
                    forall|j: int| 0 <= j < k ==> (#[trigger] slices@[j]).id@ != id@,
                ensures
                    plan_ready && validation_passed,
                    verifiable == slice_verifiable(slices@, id@),
                decreases slices.len() - k,
            {
                if str_eq(slices[k].id.as_str(), id.as_str()) {
                    verifiable = slices[k].verification_targets > 0;
                    proof {
                        assert(slice_at(slices@, id@, k as int));
                        assert forall|k2: int| slice_at(slices@, id@, k2) implies k2 == k by {
                            if k2 < k {
                                assert(slices@[k2].id@ == id@);
                            } else if k2 > k {
                                assert(slices@[k as int].id@ == id@);
                            }
                        }
                    }
                    break;
                }
                k = k + 1;
            }
            proof {
                assert(sel == Some(id@));
                assert(verifiable == session_verifiable(plan_ready, validation_passed, sel, slices@));
            }
        } else {
            proof {
                assert(sel is None);
            }
        }
    }
    proof {
        assert(verifiable == session_verifiable(plan_ready, validation_passed, sel, slices@));
    }
    set_capability(caps, "work.verify", verifiable, "Validate a selected verifiable slice before verification.");
    proof {
        assert(capability_set(old(caps)@, mid, "work.plan"@, has_request, "Select a WorkRequest before planning."@)
            && capability_set(
            mid,
            caps@,
            "work.verify"@,
            session_verifiable(plan_ready, validation_passed, sel, slices@),
            "Validate a selected verifiable slice before verification."@,
        ));
    }
}

/// A context pack as the Work page shows it.
#[derive(Debug, Clone)]
pub struct ContextPackView {
    pub plan_digest: String,
    pub slice_id: String,
    pub entry_count: usize,
}

// ---------------------------------------------------------------------------
// Edit impact

/// What an edit means for the work that is planned.
#[derive(Debug, Clone)]
pub struct WorkImpact {
    pub seedable: bool,
    pub requires_replan: bool,
    pub reason: String,
}

/// The work impact of an edit: work can be seeded from explicit
/// implementation targets, and a changed specification asks for the plan to
/// be reviewed.
pub fn work_impact(has_implementation_targets: bool, requires_replan: bool) -> (r: WorkImpact)
    ensures
        r.seedable == has_implementation_targets,
        r.requires_replan == requires_replan,
        r.reason@ == (if requires_replan {
            "Existing work plan must be reviewed after a specification change."@
        } else if !has_implementation_targets {
            "No explicit implementation target is attached to this candidate yet."@
        } else {
            "Explicit implementation targets are available for review."@
        }),
{
    let reason = if requires_replan {
        "Existing work plan must be reviewed after a specification change."
    } else if !has_implementation_targets {
        "No explicit implementation target is attached to this candidate yet."
    } else {
        "Explicit implementation targets are available for review."
    };
    WorkImpact { seedable: has_implementation_targets, requires_replan, reason: owned(reason) }
}

/// Rejects one target suggestion, against the basis it was shown on.
#[derive(Debug, Clone)]
pub struct TargetSuggestionRejectCommand {
    pub basis: MutationBasis,
    pub suggestion_token: String,
    pub suggestion_id: String,
}

/// Approves target suggestions, against the basis they were shown on.
#[derive(Debug, Clone)]
pub struct TargetSuggestionApprovalCommand {
    pub basis: MutationBasis,
    pub suggestion_token: String,
    pub suggestion_ids: Vec<String>,
}

// ---------------------------------------------------------------------------
// Trace query

/// The query of the trace endpoint.
#[derive(Debug, Clone)]
pub struct SpecificationTraceQuery {
    pub depth: Option<usize>,
    pub mode: Option<String>,
    pub node_budget: Option<usize>,
    pub edge_budget: Option<usize>,
}

/// The settings a trace is drawn with.
#[derive(Debug, Clone)]
pub struct TraceSettings {
    pub mode: String,
    pub depth: usize,
    pub node_budget: usize,
    pub edge_budget: usize,
}

pub open spec fn clamp_or(value: Option<usize>, default: nat, low: nat, high: nat) -> nat {
    let v: nat = match value {
        Some(v) => v as nat,
        None => default,
    };
    if v < low {
        low
    } else if v > high {
        high
    } else {
        v
    }
}

/// The mode is `readable` or `exact` (`readable` for anything else); the
/// depth is 1 to 8 (default 1); the node budget 8 to 500 (default 80); the
/// edge budget 8 to 1000 (default 160).
pub open spec fn spec_trace_settings(q: SpecificationTraceQuery) -> (Seq<char>, nat, nat, nat) {
    (
        match q.mode {
            Some(m) => if m@ == "exact"@ {
                "exact"@
            } else {
                "readable"@
            },
            None => "readable"@,
        },
        clamp_or(q.depth, 1, 1, 8),
        clamp_or(q.node_budget, 80, 8, 500),
        clamp_or(q.edge_budget, 160, 8, 1000),
    )
}

fn clamp_exec(value: Option<usize>, default: usize, low: usize, high: usize) -> (r: usize)
    requires
        low <= high,
    ensures
        r as nat == clamp_or(value, default as nat, low as nat, high as nat),
{
    let v = match value {
        Some(v) => v,
        None => default,
    };
    if v < low {
        low
    } else if v > high {
        high
    } else {
        v
    }
}

/// The settings of a trace query.
pub fn trace_settings(query: &SpecificationTraceQuery) -> (r: TraceSettings)
    ensures
        (r.mode@, r.depth as nat, r.node_budget as nat, r.edge_budget as nat) == spec_trace_settings(*query),
{
    let mode = match &query.mode {
        Some(m) => if str_eq(m.as_str(), "exact") {
            "exact"
        } else {
            "readable"
        },
        None => "readable",
    };
    TraceSettings {
        mode: owned(mode),
        depth: clamp_exec(query.depth, 1, 1, 8),
        node_budget: clamp_exec(query.node_budget, 80, 8, 500),
        edge_budget: clamp_exec(query.edge_budget, 160, 8, 1000),
    }
}

// ---------------------------------------------------------------------------
// Nested entity edits

/// Whether a nested entity is written or removed.
#[derive(Debug, Clone, Copy, PartialEq, Eq, Structural)]
pub enum NestedEditOperation {
    Upsert,
    Delete,
}

/// How a nested edit changes the entity list.
#[derive(Debug, Clone, Copy, PartialEq, Eq, Structural)]
pub enum NestedEdit {
    Replace { position: usize },
    Append,
    Remove { position: usize },
}

/// Why a nested edit is refused.
#[derive(Debug, Clone, Copy, PartialEq, Eq, Structural)]
pub enum NestedEditError {
    /// The edit would rename an entity; ids are immutable.
    Renamed,
    /// An update names an entity that is not there.
    MissingForUpdate,
    /// A deletion names an entity that is not there.
    Missing,
}

/// `k` is the first entry whose id is `id`.
pub open spec fn first_with_id(ids: Seq<Option<Seq<char>>>, id: Seq<char>, k: int) -> bool {
    0 <= k < ids.len() && ids[k] == Some(id) && forall|j: int| 0 <= j < k ==> ids[j] != Some(id)
}

/// The edit an operation makes on a list of entities with ids `ids`.
pub open spec fn spec_nested_edit(
    ids: Seq<Option<Seq<char>>>,
    id: Seq<char>,
    operation: NestedEditOperation,
    current_id: Option<Seq<char>>,
) -> Result<NestedEdit, NestedEditError> {
    if current_id is Some && current_id != Some(id) {
        Err(NestedEditError::Renamed)
    } else if exists|k: int| first_with_id(ids, id, k) {
        let k = choose|k: int| first_with_id(ids, id, k);
        match operation {
            NestedEditOperation::Upsert => Ok(NestedEdit::Replace { position: k as usize }),
            NestedEditOperation::Delete => Ok(NestedEdit::Remove { position: k as usize }),
        }
    } else {
        match operation {
            NestedEditOperation::Upsert => if current_id is Some {
                Err(NestedEditError::MissingForUpdate)
            } else {
                Ok(NestedEdit::Append)
            },
            NestedEditOperation::Delete => Err(NestedEditError::Missing),
        }
    }
}

pub open spec fn opt_view(o: Option<String>) -> Option<Seq<char>> {
    match o {
        Some(s) => Some(s@),
        None => None,
    }
}

pub open spec fn ids_view(ids: Seq<Option<String>>) -> Seq<Option<Seq<char>>> {
    ids.map_values(|o: Option<String>| opt_view(o))
}

/// The edit of a nested entity: an update or insertion of `id`, or its
/// removal; `current_id` is the id the browser edited, which may not
/// change.
pub fn nested_edit(
    ids: &Vec<Option<String>>,
    id: &str,
    operation: NestedEditOperation,
    current_id: Option<&str>,
) -> (r: Result<NestedEdit, NestedEditError>)
    ensures
        r == spec_nested_edit(
            ids_view(ids@),
            id@,
            operation,
            match current_id {
                Some(c) => Some(c@),
                None => None,
            },
        ),
{
    let ghost cur = match current_id {
        Some(c) => Some(c@),
        None => None::<Seq<char>>,
    };
    match current_id {
        Some(c) => {
            if !str_eq(c, id) {
                return Err(NestedEditError::Renamed);
            }
        },
        None => {},
    }
    let ghost iv = ids_view(ids@);
    let mut k: usize = 0;
    while k < ids.len()
        invariant
            k <= ids.len(),
            iv == ids_view(ids@),
            iv.len() == ids@.len(),
            match current_id {
                Some(c) => c@ == id@,
                None => true,
            },
            forall|j: int| 0 <= j < k ==> iv[j] != Some(id@),
        decreases ids.len() - k,
    {
        proof {
            assert(iv[k as int] == opt_view(ids@[k as int]));
        }
        let same = match &ids[k] {
            Some(s) => str_eq(s.as_str(), id),
            None => false,
        };
        if same {
            proof {
                assert(first_with_id(iv, id@, k as int));
                let c = choose|c: int| first_with_id(iv, id@, c);
                assert(c == k);
            }
            return match operation {
                NestedEditOperation::Upsert => Ok(NestedEdit::Replace { position: k }),
                NestedEditOperation::Delete => Ok(NestedEdit::Remove { position: k }),
            };
        }
        k = k + 1;
    }
    match operation {
        NestedEditOperation::Upsert => if current_id.is_some() {
            Err(NestedEditError::MissingForUpdate)
        } else {
            Ok(NestedEdit::Append)
        },
        NestedEditOperation::Delete => Err(NestedEditError::Missing),
    }
}

/// Applies a nested edit to the entity list.
pub fn apply_nested_edit<T>(entries: &mut Vec<T>, edit: NestedEdit, value: T)
    requires
        match edit {
            NestedEdit::Replace { position } => position < old(entries)@.len(),
            NestedEdit::Remove { position } => position < old(entries)@.len(),
            NestedEdit::Append => true,
        },
    ensures
        final(entries)@ == match edit {
            NestedEdit::Replace { position } => old(entries)@.update(position as int, value),
            NestedEdit::Append => old(entries)@.push(value),
            NestedEdit::Remove { position } => old(entries)@.remove(position as int),
        },
{
    match edit {
        NestedEdit::Replace { position } => {
            entries.set(position, value);
        },
        NestedEdit::Append => {
            entries.push(value);
        },
        NestedEdit::Remove { position } => {
            entries.remove(position);
        },
    }
}

/// Fields a specification patch may not overwrite.
pub open spec fn protected_field(key: Seq<char>) -> bool {
    key == "id"@ || key == "bindings"@ || key == "contracts"@
}

/// Whether a patch may write the field `key` of an item.
pub fn patchable_field(key: &str) -> (r: bool)
    ensures
        r == !protected_field(key@),
{
    !(str_eq(key, "id") || str_eq(key, "bindings") || str_eq(key, "contracts"))
}

} // verus!
