//! Validation runs as the Diagnostics page shows them: the state of a run,
//! its phases and the issue counts by severity.
use vstd::prelude::*;
use crate::text::owned;

verus! {

/// The state of a validation run or of one of its phases.
#[derive(Debug, Clone, Copy, PartialEq, Eq, Structural)]
pub enum ValidationRunState {
    NotRun,
    Running,
    Passed,
    Issues,
    Failed,
    NotApplicable,
}

/// The phase a validation rule belongs to.
#[derive(Debug, Clone, Copy, PartialEq, Eq, Structural)]
pub enum ValidationPhase {
    Config,
    Graph,
    Targets,
    Scope,
    Plan,
}

/// The severity of a diagnostic.
#[derive(Debug, Clone, Copy, PartialEq, Eq, Structural)]
pub enum Severity {
    Error,
    Warning,
    Info,
}

/// Issues counted by severity.
#[derive(Debug, Clone, Copy, PartialEq, Eq, Structural)]
pub struct IssueCounts {
    pub error: usize,
    pub warning: usize,
    pub info: usize,
}

/// One diagnostic of a run, classified by phase and severity.
#[derive(Debug, Clone)]
pub struct ValidationDiagnosticView {
    pub code: String,
    pub message: String,
    pub path: String,
    pub phase: ValidationPhase,
    pub severity: Severity,
}

/// One phase of a run.
#[derive(Debug, Clone)]
pub struct ValidationPhaseView {
    pub id: String,
    pub state: ValidationRunState,
    pub issue_count: usize,
    pub evaluated_rules: usize,
    pub issue_counts: IssueCounts,
    pub not_applicable_reason: Option<String>,
}

/// A validation run.
#[derive(Debug, Clone)]
pub struct ValidationRunView {
    pub state: ValidationRunState,
    pub context: String,
    pub basis: Option<String>,
    pub started_at: Option<u64>,
    pub completed_at: Option<u64>,
    pub duration_ms: Option<u64>,
    pub evaluated_rule_count: usize,
    pub issue_counts: IssueCounts,
    pub applicable_phase_count: usize,
    pub skipped_phase_count: usize,
    pub phases: Vec<ValidationPhaseView>,
    pub diagnostics: Vec<ValidationDiagnosticView>,
    pub reason: Option<String>,
}

/// The number of rules the selected preset evaluates in each phase.
#[derive(Debug, Clone, Copy)]
pub struct PhaseRuleCounts {
    pub config: usize,
    pub graph: usize,
    pub targets: usize,
    pub scope: usize,
    pub plan: usize,
}

/// The phases in the order a run shows them.
pub open spec fn spec_phases() -> Seq<ValidationPhase> {
    seq![
        ValidationPhase::Config,
        ValidationPhase::Graph,
        ValidationPhase::Targets,
        ValidationPhase::Scope,
        ValidationPhase::Plan,
    ]
}

pub open spec fn spec_phase_id(phase: ValidationPhase) -> Seq<char> {
    match phase {
        ValidationPhase::Config => "config"@,
        ValidationPhase::Graph => "graph"@,
        ValidationPhase::Targets => "targets"@,
        ValidationPhase::Scope => "scope"@,
        ValidationPhase::Plan => "plan"@,
    }
}

/// The identifier of a phase.
pub fn validation_phase_id(phase: ValidationPhase) -> (r: &'static str)
    ensures
        r@ == spec_phase_id(phase),
{
    match phase {
        ValidationPhase::Config => "config",
        ValidationPhase::Graph => "graph",
        ValidationPhase::Targets => "targets",
        ValidationPhase::Scope => "scope",
        ValidationPhase::Plan => "plan",
    }
}

/// The phase an identifier names; unknown identifiers name the plan phase.
pub open spec fn spec_phase_from_id(id: Seq<char>) -> ValidationPhase {
    if id == "config"@ {
        ValidationPhase::Config
    } else if id == "graph"@ {
        ValidationPhase::Graph
    } else if id == "targets"@ {
        ValidationPhase::Targets
    } else if id == "scope"@ {
        ValidationPhase::Scope
    } else {
        ValidationPhase::Plan
    }
}

/// The phase of an identifier.
pub fn validation_phase_from_id(id: &str) -> (r: ValidationPhase)
    ensures
        r == spec_phase_from_id(id@),
{
    if crate::text::str_eq(id, "config") {
        ValidationPhase::Config
    } else if crate::text::str_eq(id, "graph") {
        ValidationPhase::Graph
    } else if crate::text::str_eq(id, "targets") {
        ValidationPhase::Targets
    } else if crate::text::str_eq(id, "scope") {
        ValidationPhase::Scope
    } else {
        ValidationPhase::Plan
    }
}

/// Milliseconds since the epoch, as the run records them: a time before the
/// epoch has none, and a later one is cut to 64 bits.
pub open spec fn spec_epoch_ms(since_epoch_ms: Option<u128>) -> Option<u64> {
    match since_epoch_ms {
        Some(ms) => Some((ms % 0x1_0000_0000_0000_0000) as u64),
        None => None,
    }
}

/// A time as milliseconds since the epoch; `since_epoch_ms` is the elapsed
/// time from the epoch, `None` for a time before it.
pub fn epoch_ms(since_epoch_ms: Option<u128>) -> (r: Option<u64>)
    ensures
        r == spec_epoch_ms(since_epoch_ms),
{
    match since_epoch_ms {
        Some(ms) => Some((ms % 0x1_0000_0000_0000_0000u128) as u64),
        None => None,
    }
}

/// The optional reason a phase records is the given one.
pub open spec fn same_reason(a: Option<String>, b: Option<&str>) -> bool {
    match (a, b) {
        (Some(x), Some(y)) => x@ == y@,
        (None, None) => true,
        _ => false,
    }
}

fn zero_counts() -> (r: IssueCounts)
    ensures
        r == (IssueCounts { error: 0, warning: 0, info: 0 }),
{
    IssueCounts { error: 0, warning: 0, info: 0 }
}

fn placeholder_phases(state: ValidationRunState, reason: Option<&str>) -> (r: Vec<ValidationPhaseView>)
    ensures
        r@.len() == 5,
        forall|k: int|
            0 <= k < 5 ==> {
                let p = #[trigger] r@[k];
                &&& p.id@ == spec_phase_id(spec_phases()[k])
                &&& p.state == state
                &&& p.issue_count == 0
                &&& p.evaluated_rules == 0
                &&& p.issue_counts == (IssueCounts { error: 0, warning: 0, info: 0 })
                &&& same_reason(p.not_applicable_reason, reason)
            },
{
    let mut r: Vec<ValidationPhaseView> = Vec::new();
    let mut k: usize = 0;
    while k < 5
        invariant
            k <= 5,
            r@.len() == k,
            forall|j: int|
                0 <= j < k ==> {
                    let p = #[trigger] r@[j];
                    &&& p.id@ == spec_phase_id(spec_phases()[j])
                    &&& p.state == state
                    &&& p.issue_count == 0
                    &&& p.evaluated_rules == 0
                    &&& p.issue_counts == (IssueCounts { error: 0, warning: 0, info: 0 })
                    &&& same_reason(p.not_applicable_reason, reason)
                },
        decreases 5 - k,
    {
        let phase = if k == 0 {
            ValidationPhase::Config
        } else if k == 1 {
            ValidationPhase::Graph
        } else if k == 2 {
            ValidationPhase::Targets
        } else if k == 3 {
            ValidationPhase::Scope
        } else {
            ValidationPhase::Plan
        };
        assert(phase == spec_phases()[k as int]);
        let why = match reason {
            Some(s) => Some(owned(s)),
            None => None,
        };
        r.push(
            ValidationPhaseView {
                id: owned(validation_phase_id(phase)),
                state,
                issue_count: 0,
                evaluated_rules: 0,
                issue_counts: zero_counts(),
                not_applicable_reason: why,
            },
        );
        k = k + 1;
    }
    r
}

impl ValidationRunView {
    /// The run shown before anything was validated: every phase not run.
    pub fn not_run() -> (r: ValidationRunView)
        ensures
            r.state == ValidationRunState::NotRun,
            r.context@ == "workspace"@,
            r.basis is None && r.started_at is None && r.completed_at is None,
            r.duration_ms is None,
            r.evaluated_rule_count == 0,
            r.issue_counts == (IssueCounts { error: 0, warning: 0, info: 0 }),
            r.applicable_phase_count == 0,
            r.skipped_phase_count == 5,
            r.phases@.len() == 5,
            forall|k: int|
                0 <= k < 5 ==> {
                    let p = #[trigger] r.phases@[k];
                    &&& p.id@ == spec_phase_id(spec_phases()[k])
                    &&& p.state == ValidationRunState::NotRun
                    &&& p.issue_count == 0
                    &&& p.evaluated_rules == 0
                    &&& p.issue_counts == (IssueCounts { error: 0, warning: 0, info: 0 })
                    &&& p.not_applicable_reason is None
                },
            r.diagnostics@.len() == 0,
            r.reason is None,
    {
        let phases = placeholder_phases(ValidationRunState::NotRun, None);
        ValidationRunView {
            state: ValidationRunState::NotRun,
            context: owned("workspace"),
            basis: None,
            started_at: None,
            completed_at: None,
            duration_ms: None,
            evaluated_rule_count: 0,
            issue_counts: zero_counts(),
            applicable_phase_count: 0,
            skipped_phase_count: 5,
            phases,
            diagnostics: Vec::new(),
            reason: None,
        }
    }

    /// A run that does not apply, with its reason on every phase.
    pub fn not_applicable(context: &str, reason: &str) -> (r: ValidationRunView)
        ensures
            r.state == ValidationRunState::NotApplicable,
            r.context@ == context@,
            r.basis is None && r.started_at is None && r.completed_at is None,
            r.duration_ms is None,
            r.evaluated_rule_count == 0,
            r.issue_counts == (IssueCounts { error: 0, warning: 0, info: 0 }),
            r.applicable_phase_count == 0,
            r.skipped_phase_count == 5,
            r.phases@.len() == 5,
            forall|k: int|
                0 <= k < 5 ==> {
                    let p = #[trigger] r.phases@[k];
                    &&& p.id@ == spec_phase_id(spec_phases()[k])
                    &&& p.state == ValidationRunState::NotApplicable
                    &&& p.issue_count == 0
                    &&& p.evaluated_rules == 0
                    &&& p.issue_counts == (IssueCounts { error: 0, warning: 0, info: 0 })
                    &&& p.not_applicable_reason matches Some(s) && s@ == reason@
                },
            r.diagnostics@.len() == 0,
            r.reason matches Some(s) && s@ == reason@,
    {
        let phases = placeholder_phases(ValidationRunState::NotApplicable, Some(reason));
        ValidationRunView {
            state: ValidationRunState::NotApplicable,
            context: owned(context),
            basis: None,
            started_at: None,
            completed_at: None,
            duration_ms: None,
            evaluated_rule_count: 0,
            issue_counts: zero_counts(),
            applicable_phase_count: 0,
            skipped_phase_count: 5,
            phases,
            diagnostics: Vec::new(),
            reason: Some(owned(reason)),
        }
    }

    /// A run that failed before producing diagnostics: every phase failed,
    /// with the reason, between the two given times.
    pub fn failed(
        context: &str,
        reason: &str,
        started_at: Option<u64>,
        completed_at: Option<u64>,
    ) -> (r: ValidationRunView)
        ensures
            r.state == ValidationRunState::Failed,
            r.context@ == context@,
            r.basis is None,
            r.started_at == started_at && r.completed_at == completed_at,
            r.duration_ms is None,
            r.evaluated_rule_count == 0,
            r.issue_counts == (IssueCounts { error: 0, warning: 0, info: 0 }),
            r.applicable_phase_count == 0,
            r.skipped_phase_count == 5,
            r.phases@.len() == 5,
            forall|k: int|
                0 <= k < 5 ==> {
                    let p = #[trigger] r.phases@[k];
                    &&& p.id@ == spec_phase_id(spec_phases()[k])
                    &&& p.state == ValidationRunState::Failed
                    &&& p.issue_count == 0
                    &&& p.evaluated_rules == 0
                    &&& p.issue_counts == (IssueCounts { error: 0, warning: 0, info: 0 })
                    &&& p.not_applicable_reason matches Some(s) && s@ == reason@
                },
            r.diagnostics@.len() == 0,
            r.reason matches Some(s) && s@ == reason@,
    {
        let phases = placeholder_phases(ValidationRunState::Failed, Some(reason));
        ValidationRunView {
            state: ValidationRunState::Failed,
            context: owned(context),
            basis: None,
            started_at,
            completed_at,
            duration_ms: None,
            evaluated_rule_count: 0,
            issue_counts: zero_counts(),
            applicable_phase_count: 0,
            skipped_phase_count: 5,
            phases,
            diagnostics: Vec::new(),
            reason: Some(owned(reason)),
        }
    }
}

// ---------------------------------------------------------------------------
// Completed runs

pub open spec fn diagnostic_keys(ds: Seq<ValidationDiagnosticView>) -> Seq<(ValidationPhase, Severity)> {
    ds.map_values(|d: ValidationDiagnosticView| (d.phase, d.severity))
}

/// How many of the diagnostics `ds` have severity `severity`, counting only
/// those of `phase` when one is given.
pub open spec fn tally(
    ds: Seq<(ValidationPhase, Severity)>,
    phase: Option<ValidationPhase>,
    severity: Severity,
) -> nat
    decreases ds.len(),
{
    if ds.len() == 0 {
        0
    } else {
        let d = ds.last();
        tally(ds.drop_last(), phase, severity) + if (phase is None || phase == Some(d.0)) && d.1
            == severity {
            1nat
        } else {
            0nat
        }
    }
}

/// How many of the diagnostics `ds` belong to `phase`.
pub open spec fn phase_total(ds: Seq<(ValidationPhase, Severity)>, phase: ValidationPhase) -> nat
    decreases ds.len(),
{
    if ds.len() == 0 {
        0
    } else {
        phase_total(ds.drop_last(), phase) + if ds.last().0 == phase {
            1nat
        } else {
            0nat
        }
    }
}

/// The counts by severity of the diagnostics (of `phase`, when given).
pub open spec fn spec_issue_counts(
    ds: Seq<(ValidationPhase, Severity)>,
    phase: Option<ValidationPhase>,
) -> (nat, nat, nat) {
    (tally(ds, phase, Severity::Error), tally(ds, phase, Severity::Warning), tally(ds, phase, Severity::Info))
}

pub open spec fn counts_of(c: IssueCounts) -> (nat, nat, nat) {
    (c.error as nat, c.warning as nat, c.info as nat)
}

proof fn lemma_tally_bound(
    ds: Seq<(ValidationPhase, Severity)>,
    phase: Option<ValidationPhase>,
    severity: Severity,
)
    ensures
        tally(ds, phase, severity) <= ds.len(),
    decreases ds.len(),
{
    if ds.len() > 0 {
        lemma_tally_bound(ds.drop_last(), phase, severity);
    }
}

proof fn lemma_phase_total_bound(ds: Seq<(ValidationPhase, Severity)>, phase: ValidationPhase)
    ensures
        phase_total(ds, phase) <= ds.len(),
    decreases ds.len(),
{
    if ds.len() > 0 {
        lemma_phase_total_bound(ds.drop_last(), phase);
    }
}

fn count_issues(ds: &Vec<ValidationDiagnosticView>, phase: Option<ValidationPhase>) -> (r: (
    IssueCounts,
    usize,
))
    ensures
        counts_of(r.0) == spec_issue_counts(diagnostic_keys(ds@), phase),
        phase matches Some(p) ==> r.1 as nat == phase_total(diagnostic_keys(ds@), p),
        phase is None ==> r.1 == ds@.len(),
{
    let ghost keys = diagnostic_keys(ds@);
    let mut error: usize = 0;
    let mut warning: usize = 0;
    let mut info: usize = 0;
    let mut total: usize = 0;
    let mut i: usize = 0;
    assert(keys.take(0) =~= Seq::<(ValidationPhase, Severity)>::empty());
    while i < ds.len()
        invariant
            i <= ds.len(),
            keys == diagnostic_keys(ds@),
            keys.len() == ds@.len(),
            error as nat == tally(keys.take(i as int), phase, Severity::Error),
            warning as nat == tally(keys.take(i as int), phase, Severity::Warning),
            info as nat == tally(keys.take(i as int), phase, Severity::Info),
            phase matches Some(p) ==> total as nat == phase_total(keys.take(i as int), p),
            phase is None ==> total == i,
            error <= i && warning <= i && info <= i && total <= i,
        decreases ds.len() - i,
    {
        let d = &ds[i];
        proof {
            assert(keys.take(i + 1).drop_last() =~= keys.take(i as int));
            assert(keys.take(i + 1).last() == (d.phase, d.severity));
            lemma_tally_bound(keys.take(i as int), phase, Severity::Error);
        }
        let counted = match phase {
            Some(p) => p == d.phase,
            None => true,
        };
        if counted {
            total = total + 1;
            match d.severity {
                Severity::Error => {
                    error = error + 1;
                },
                Severity::Warning => {
                    warning = warning + 1;
                },
                Severity::Info => {
                    info = info + 1;
                },
            }
        }
        i = i + 1;
    }
    assert(keys.take(i as int) =~= keys);
    (IssueCounts { error, warning, info }, total)
}

/// The diagnostics counted by severity.
pub fn issue_counts(diagnostics: &Vec<ValidationDiagnosticView>) -> (r: IssueCounts)
    ensures
        counts_of(r) == spec_issue_counts(diagnostic_keys(diagnostics@), None),
{
    count_issues(diagnostics, None).0
}

pub open spec fn spec_phase_rules(rules: PhaseRuleCounts, phase: ValidationPhase) -> usize {
    match phase {
        ValidationPhase::Config => rules.config,
        ValidationPhase::Graph => rules.graph,
        ValidationPhase::Targets => rules.targets,
        ValidationPhase::Scope => rules.scope,
        ValidationPhase::Plan => rules.plan,
    }
}

/// Config, graph and targets always apply; scope only with a changed-file
/// range; plan only with a selected work plan.
pub open spec fn phase_applies(phase: ValidationPhase, has_changes: bool, has_plan: bool) -> bool {
    match phase {
        ValidationPhase::Scope => has_changes,
        ValidationPhase::Plan => has_plan,
        _ => true,
    }
}

pub open spec fn skip_reason(phase: ValidationPhase) -> Seq<char> {
    match phase {
        ValidationPhase::Scope => "No changed-file range was selected"@,
        _ => "No work plan or slice is selected"@,
    }
}

/// The view of one phase of a completed run.
pub open spec fn phase_view_is(
    v: ValidationPhaseView,
    phase: ValidationPhase,
    ds: Seq<(ValidationPhase, Severity)>,
    has_changes: bool,
    has_plan: bool,
    rules: PhaseRuleCounts,
) -> bool {
    let applies = phase_applies(phase, has_changes, has_plan);
    &&& v.id@ == spec_phase_id(phase)
    &&& v.issue_count as nat == phase_total(ds, phase)
    &&& v.state == (if !applies {
        ValidationRunState::NotApplicable
    } else if phase_total(ds, phase) == 0 {
        ValidationRunState::Passed
    } else {
        ValidationRunState::Issues
    })
    &&& v.evaluated_rules == (if applies {
        spec_phase_rules(rules, phase)
    } else {
        0
    })
    &&& counts_of(v.issue_counts) == spec_issue_counts(ds, Some(phase))
    &&& (if applies {
        v.not_applicable_reason is None
    } else {
        v.not_applicable_reason matches Some(s) && s@ == skip_reason(phase)
    })
}

fn phase_view(
    diagnostics: &Vec<ValidationDiagnosticView>,
    phase: ValidationPhase,
    has_changes: bool,
    has_plan: bool,
    rules: PhaseRuleCounts,
) -> (r: ValidationPhaseView)
    ensures
        phase_view_is(r, phase, diagnostic_keys(diagnostics@), has_changes, has_plan, rules),
{
    let applies = match phase {
        ValidationPhase::Scope => has_changes,
        ValidationPhase::Plan => has_plan,
        _ => true,
    };
    let (counts, issue_count) = count_issues(diagnostics, Some(phase));
    let state = if !applies {
        ValidationRunState::NotApplicable
    } else if issue_count == 0 {
        ValidationRunState::Passed
    } else {
        ValidationRunState::Issues
    };
    let evaluated_rules = if applies {
        match phase {
            ValidationPhase::Config => rules.config,
            ValidationPhase::Graph => rules.graph,
            ValidationPhase::Targets => rules.targets,
            ValidationPhase::Scope => rules.scope,
            ValidationPhase::Plan => rules.plan,
        }
    } else {
        0
    };
    let not_applicable_reason = if applies {
        None
    } else {
        match phase {
            ValidationPhase::Scope => Some(owned("No changed-file range was selected")),
            _ => Some(owned("No work plan or slice is selected")),
        }
    };
    ValidationPhaseView {
        id: owned(validation_phase_id(phase)),
        state,
        issue_count,
        evaluated_rules,
        issue_counts: counts,
        not_applicable_reason,
    }
}

/// The five phase views of a completed run.
pub fn phase_views(
    diagnostics: &Vec<ValidationDiagnosticView>,
    has_changes: bool,
    has_plan: bool,
    rules: PhaseRuleCounts,
) -> (r: Vec<ValidationPhaseView>)
    ensures
        r@.len() == 5,
        forall|k: int|
            0 <= k < 5 ==> phase_view_is(
                #[trigger] r@[k],
                spec_phases()[k],
                diagnostic_keys(diagnostics@),
                has_changes,
                has_plan,
                rules,
            ),
{
    let mut r: Vec<ValidationPhaseView> = Vec::new();
    r.push(phase_view(diagnostics, ValidationPhase::Config, has_changes, has_plan, rules));
    r.push(phase_view(diagnostics, ValidationPhase::Graph, has_changes, has_plan, rules));
    r.push(phase_view(diagnostics, ValidationPhase::Targets, has_changes, has_plan, rules));
    r.push(phase_view(diagnostics, ValidationPhase::Scope, has_changes, has_plan, rules));
    r.push(phase_view(diagnostics, ValidationPhase::Plan, has_changes, has_plan, rules));
    r
}

/// The rules of all applicable phases fit in the machine's integers.
pub open spec fn rules_fit(rules: PhaseRuleCounts) -> bool {
    rules.config + rules.graph + rules.targets + rules.scope + rules.plan <= usize::MAX
}

impl ValidationRunView {
    /// A run that completed with `diagnostics`: it passed when there are
    /// none and has issues otherwise; each phase counts its own diagnostics,
    /// and the phases that do not apply are skipped.
    pub fn completed(
        context: &str,
        basis: Option<String>,
        diagnostics: Vec<ValidationDiagnosticView>,
        has_changes: bool,
        has_plan: bool,
        rules: PhaseRuleCounts,
        started_at: Option<u64>,
        completed_at: Option<u64>,
        duration_ms: Option<u64>,
    ) -> (r: ValidationRunView)
        requires
            rules_fit(rules),
        ensures
            r.state == (if diagnostics@.len() == 0 {
                ValidationRunState::Passed
            } else {
                ValidationRunState::Issues
            }),
            r.context@ == context@,
            r.basis == basis,
            r.started_at == started_at && r.completed_at == completed_at,
            r.duration_ms == duration_ms,
            r.diagnostics@ == diagnostics@,
            r.phases@.len() == 5,
            forall|k: int|
                0 <= k < 5 ==> phase_view_is(
                    #[trigger] r.phases@[k],
                    spec_phases()[k],
                    diagnostic_keys(diagnostics@),
                    has_changes,
                    has_plan,
                    rules,
                ),
            r.evaluated_rule_count == r.phases@[0].evaluated_rules + r.phases@[1].evaluated_rules
                + r.phases@[2].evaluated_rules + r.phases@[3].evaluated_rules
                + r.phases@[4].evaluated_rules,
            counts_of(r.issue_counts) == spec_issue_counts(diagnostic_keys(diagnostics@), None),
            r.applicable_phase_count == 3 + (if has_changes {
                1int
            } else {
                0
            }) + (if has_plan {
                1int
            } else {
                0
            }),
            r.skipped_phase_count == 5 - r.applicable_phase_count,
            r.reason is None,
    {
        let phases = phase_views(&diagnostics, has_changes, has_plan, rules);
        let mut applicable: usize = 0;
        let mut evaluated: usize = 0;
        let mut k: usize = 0;
        while k < phases.len()
            invariant
                k <= phases.len(),
                phases@.len() == 5,
                rules_fit(rules),
                forall|j: int|
                    0 <= j < 5 ==> phase_view_is(
                        #[trigger] phases@[j],
                        spec_phases()[j],
                        diagnostic_keys(diagnostics@),
                        has_changes,
                        has_plan,
                        rules,
                    ),
                applicable as int == (if k > 0 { 1int } else { 0 }) + (if k > 1 { 1int } else { 0 })
                    + (if k > 2 { 1int } else { 0 }) + (if k > 3 && has_changes { 1int } else { 0 }) + (
                if k > 4 && has_plan { 1int } else { 0 }),
                evaluated as int == (if k > 0 { phases@[0].evaluated_rules as int } else { 0 }) + (if k
                    > 1 { phases@[1].evaluated_rules as int } else { 0 }) + (if k > 2 {
                    phases@[2].evaluated_rules as int
                } else { 0 }) + (if k > 3 { phases@[3].evaluated_rules as int } else { 0 }) + (if k > 4 {
                    phases@[4].evaluated_rules as int
                } else { 0 }),
            decreases phases.len() - k,
        {
            let p = &phases[k];
            assert(phase_view_is(phases@[k as int], spec_phases()[k as int], diagnostic_keys(diagnostics@), has_changes, has_plan, rules));
            if p.state != ValidationRunState::NotApplicable {
                applicable = applicable + 1;
            }
            evaluated = evaluated + p.evaluated_rules;
            k = k + 1;
        }
        let counts = issue_counts(&diagnostics);
        let state = if diagnostics.len() == 0 {
            ValidationRunState::Passed
        } else {
            ValidationRunState::Issues
        };
        ValidationRunView {
            state,
            context: owned(context),
            basis,
            started_at,
            completed_at,
            duration_ms,
            evaluated_rule_count: evaluated,
            issue_counts: counts,
            applicable_phase_count: applicable,
            skipped_phase_count: 5 - applicable,
            phases,
            diagnostics,
            reason: None,
        }
    }
}

// ---------------------------------------------------------------------------
// Laws

/// Every diagnostic is counted in exactly one phase: the phases' issue
/// counts add up to the number of diagnostics.
pub proof fn lemma_phases_partition_diagnostics(ds: Seq<(ValidationPhase, Severity)>)
    ensures
        phase_total(ds, ValidationPhase::Config) + phase_total(ds, ValidationPhase::Graph)
            + phase_total(ds, ValidationPhase::Targets) + phase_total(ds, ValidationPhase::Scope)
            + phase_total(ds, ValidationPhase::Plan) == ds.len(),
    decreases ds.len(),
{
    if ds.len() > 0 {
        lemma_phases_partition_diagnostics(ds.drop_last());
    }
}

/// Every counted diagnostic has exactly one severity: errors, warnings and
/// infos add up to the diagnostics counted (of the phase, when given).
pub proof fn lemma_severities_partition_diagnostics(
    ds: Seq<(ValidationPhase, Severity)>,
    phase: Option<ValidationPhase>,
)
    ensures
        tally(ds, phase, Severity::Error) + tally(ds, phase, Severity::Warning) + tally(
            ds,
            phase,
            Severity::Info,
        ) == match phase {
            Some(p) => phase_total(ds, p),
            None => ds.len(),
        },
    decreases ds.len(),
{
    if ds.len() > 0 {
        lemma_severities_partition_diagnostics(ds.drop_last(), phase);
    }
}

} // verus!
