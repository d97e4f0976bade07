//! Why a candidate plan has to be split: the first limit it exceeds, or
//! what the planner reported.
use vstd::prelude::*;
use crate::text::{chars_of, contains_exec, owned};

verus! {

/// The budget one execution slice uses.
#[derive(Debug, Clone, Copy)]
pub struct SliceBudgetUsage {
    pub editable_files: usize,
    pub editable_symbols: usize,
    pub verification_targets: usize,
    pub readonly_targets: usize,
    pub total_bytes: u64,
}

/// The configured slicing limits.
#[derive(Debug, Clone, Copy)]
pub struct SlicingLimits {
    pub max_editable_files: usize,
    pub max_editable_symbols: usize,
    pub max_verification_targets: usize,
    pub max_readonly_targets: usize,
    pub max_total_bytes: u64,
}

/// One slice of a candidate plan: its budget and the messages of its
/// blockers.
#[derive(Debug, Clone)]
pub struct SplitSlice {
    pub budget: SliceBudgetUsage,
    pub blocker_messages: Vec<String>,
}

/// What the split reason reads of a candidate plan.
#[derive(Debug, Clone)]
pub struct SplitPlan {
    pub slices: Vec<SplitSlice>,
    pub diagnostic_messages: Vec<String>,
    pub canonical_digest: String,
}

/// Why the plan is split.
#[derive(Debug, Clone)]
pub struct SplitReasonView {
    pub code: String,
    pub message: String,
    pub planner_basis_digest: String,
}

/// The budgets of the slices, added up field by field.
pub open spec fn total_budget(slices: Seq<SplitSlice>) -> (nat, nat, nat, nat, nat)
    decreases slices.len(),
{
    if slices.len() == 0 {
        (0, 0, 0, 0, 0)
    } else {
        let t = total_budget(slices.drop_last());
        let b = slices.last().budget;
        (
            t.0 + b.editable_files as nat,
            t.1 + b.editable_symbols as nat,
            t.2 + b.verification_targets as nat,
            t.3 + b.readonly_targets as nat,
            t.4 + b.total_bytes as nat,
        )
    }
}

/// The blocker messages of the slices, slice by slice.
pub open spec fn slice_blockers(slices: Seq<SplitSlice>) -> Seq<Seq<char>>
    decreases slices.len(),
{
    if slices.len() == 0 {
        Seq::empty()
    } else {
        slice_blockers(slices.drop_last()) + slices.last().blocker_messages@.map_values(|m: String| m@)
    }
}

/// The message reported when no limit is exceeded: the plan's first
/// diagnostic, else the first blocker of a slice, else a general one.
pub open spec fn fallback_message(plan: SplitPlan) -> Seq<char> {
    if plan.diagnostic_messages@.len() > 0 {
        plan.diagnostic_messages@[0]@
    } else if slice_blockers(plan.slices@).len() > 0 {
        slice_blockers(plan.slices@)[0]
    } else {
        "The candidate exceeds a configured execution limit."@
    }
}

pub open spec fn fallback_code(message: Seq<char>) -> Seq<char> {
    let lower = crate::text::ascii_lowercase(message);
    if crate::text::contains_seq(lower, "verification"@) {
        "verification-coverage"@
    } else if crate::text::contains_seq(lower, "readonly"@) {
        "readonly-budget"@
    } else if crate::text::contains_seq(lower, "byte"@) {
        "total-byte-budget"@
    } else {
        "editable-budget"@
    }
}

/// The reason a plan is split: several slices are independent components;
/// otherwise the first exceeded limit (editable, verification, read-only,
/// total bytes); otherwise what the planner reported.
pub open spec fn spec_split_reason(plan: SplitPlan, limits: SlicingLimits) -> (Seq<char>, Seq<char>) {
    let b = total_budget(plan.slices@);
    if plan.slices@.len() > 1 {
        (
            "independent-target-components"@,
            "The Requirement criterion expands into independent executable target components."@,
        )
    } else if b.0 > limits.max_editable_files || b.1 > limits.max_editable_symbols {
        ("editable-budget"@, "The candidate exceeds the configured editable target budget."@)
    } else if b.2 > limits.max_verification_targets {
        ("verification-budget"@, "The candidate exceeds the configured verification target budget."@)
    } else if b.3 > limits.max_readonly_targets {
        ("readonly-budget"@, "The candidate exceeds the configured readonly context budget."@)
    } else if b.4 > limits.max_total_bytes {
        ("total-byte-budget"@, "The candidate exceeds the configured total byte budget."@)
    } else {
        (fallback_code(fallback_message(plan)), fallback_message(plan))
    }
}

/// The budget totals fit in their types.
pub open spec fn budget_fits(slices: Seq<SplitSlice>) -> bool {
    let b = total_budget(slices);
    b.0 <= usize::MAX && b.1 <= usize::MAX && b.2 <= usize::MAX && b.3 <= usize::MAX && b.4
        <= u64::MAX
}

proof fn lemma_budget_prefix(slices: Seq<SplitSlice>, n: int)
    requires
        0 <= n <= slices.len(),
    ensures
        total_budget(slices.take(n)).0 <= total_budget(slices).0,
        total_budget(slices.take(n)).1 <= total_budget(slices).1,
        total_budget(slices.take(n)).2 <= total_budget(slices).2,
        total_budget(slices.take(n)).3 <= total_budget(slices).3,
        total_budget(slices.take(n)).4 <= total_budget(slices).4,
    decreases slices.len() - n,
{
    if n < slices.len() {
        lemma_budget_prefix(slices, n + 1);
        assert(slices.take(n + 1).drop_last() =~= slices.take(n));
    } else {
        assert(slices.take(n) =~= slices);
    }
}

fn first_slice_blocker(slices: &Vec<SplitSlice>) -> (r: Option<String>)
    ensures
        match r {
            Some(m) => slice_blockers(slices@).len() > 0 && m@ == slice_blockers(slices@)[0],
            None => slice_blockers(slices@).len() == 0,
        },
{
    let mut i: usize = 0;
    assert(slices@.take(0) =~= Seq::<SplitSlice>::empty());
    while i < slices.len()
        invariant
            i <= slices.len(),
            slice_blockers(slices@.take(i as int)).len() == 0,
        decreases slices.len() - i,
    {
        proof {
            assert(slices@.take(i + 1).drop_last() =~= slices@.take(i as int));
            assert(slices@.take(i + 1).last() == slices@[i as int]);
        }
        if slices[i].blocker_messages.len() > 0 {
            proof {
                lemma_blockers_prefix(slices@, i + 1);
                let pre = slice_blockers(slices@.take(i + 1));
                assert(pre[0] == slices@[i as int].blocker_messages@[0]@);
            }
            return Some(owned(slices[i].blocker_messages[0].as_str()));
        }
        i = i + 1;
    }
    assert(slices@.take(i as int) =~= slices@);
    None
}

proof fn lemma_blockers_append(a: Seq<SplitSlice>, b: Seq<SplitSlice>)
    ensures
        slice_blockers(a + b) =~= slice_blockers(a) + slice_blockers(b),
    decreases b.len(),
{
    if b.len() == 0 {
        assert(a + b =~= a);
    } else {
        lemma_blockers_append(a, b.drop_last());
        assert((a + b).drop_last() =~= a + b.drop_last());
        assert((a + b).last() == b.last());
    }
}

proof fn lemma_blockers_prefix(slices: Seq<SplitSlice>, n: int)
    requires
        0 <= n <= slices.len(),
    ensures
        slice_blockers(slices) =~= slice_blockers(slices.take(n)) + slice_blockers(slices.skip(n)),
{
    lemma_blockers_append(slices.take(n), slices.skip(n));
    assert(slices.take(n) + slices.skip(n) =~= slices);
}

fn contains_str(text: &Vec<char>, needle: &str) -> (r: bool)
    ensures
        r == crate::text::contains_seq(text@, needle@),
{
    contains_exec(text, &chars_of(needle))
}

/// Why the candidate plan has to be split.
pub fn split_reason(plan: &SplitPlan, limits: &SlicingLimits) -> (r: SplitReasonView)
    requires
        budget_fits(plan.slices@),
    ensures
        (r.code@, r.message@) == spec_split_reason(*plan, *limits),
        r.planner_basis_digest@ == plan.canonical_digest@,
{
    let mut files: usize = 0;
    let mut symbols: usize = 0;
    let mut verification: usize = 0;
    let mut readonly: usize = 0;
    let mut bytes: u64 = 0;
    let mut i: usize = 0;
    assert(plan.slices@.take(0) =~= Seq::<SplitSlice>::empty());
    while i < plan.slices.len()
        invariant
            i <= plan.slices.len(),
            budget_fits(plan.slices@),
            (files as nat, symbols as nat, verification as nat, readonly as nat, bytes as nat)
                == total_budget(plan.slices@.take(i as int)),
        decreases plan.slices.len() - i,
    {
        let b = plan.slices[i].budget;
        proof {
            assert(plan.slices@.take(i + 1).drop_last() =~= plan.slices@.take(i as int));
            assert(plan.slices@.take(i + 1).last() == plan.slices@[i as int]);
            lemma_budget_prefix(plan.slices@, i + 1);
        }
        files = files + b.editable_files;
        symbols = symbols + b.editable_symbols;
        verification = verification + b.verification_targets;
        readonly = readonly + b.readonly_targets;
        bytes = bytes + b.total_bytes;
        i = i + 1;
    }
    assert(plan.slices@.take(i as int) =~= plan.slices@);
    let digest = owned(plan.canonical_digest.as_str());
    if plan.slices.len() > 1 {
        return SplitReasonView {
            code: owned("independent-target-components"),
            message: owned("The Requirement criterion expands into independent executable target components."),
            planner_basis_digest: digest,
        };
    }
    if files > limits.max_editable_files || symbols > limits.max_editable_symbols {
        return SplitReasonView {
            code: owned("editable-budget"),
            message: owned("The candidate exceeds the configured editable target budget."),
            planner_basis_digest: digest,
        };
    }
    if verification > limits.max_verification_targets {
        return SplitReasonView {
            code: owned("verification-budget"),
            message: owned("The candidate exceeds the configured verification target budget."),
            planner_basis_digest: digest,
        };
    }
    if readonly > limits.max_readonly_targets {
        return SplitReasonView {
            code: owned("readonly-budget"),
            message: owned("The candidate exceeds the configured readonly context budget."),
            planner_basis_digest: digest,
        };
    }
    if bytes > limits.max_total_bytes {
        return SplitReasonView {
            code: owned("total-byte-budget"),
            message: owned("The candidate exceeds the configured total byte budget."),
            planner_basis_digest: digest,
        };
    }
    let message = if plan.diagnostic_messages.len() > 0 {
        owned(plan.diagnostic_messages[0].as_str())
    } else {
        match first_slice_blocker(&plan.slices) {
            Some(m) => m,
            None => owned("The candidate exceeds a configured execution limit."),
        }
    };
    let lower = crate::text::ascii_lowercase_exec(&chars_of(message.as_str()));
    let code = if contains_str(&lower, "verification") {
        "verification-coverage"
    } else if contains_str(&lower, "readonly") {
        "readonly-budget"
    } else if contains_str(&lower, "byte") {
        "total-byte-budget"
    } else {
        "editable-budget"
    };
    SplitReasonView { code: owned(code), message, planner_basis_digest: digest }
}

// ---------------------------------------------------------------------------
// Laws of the split reason

/// A single-slice plan whose editable files or editable symbols exceed
/// their limits is split for its editable budget, whatever else it
/// exceeds or the planner reported; one within its editable limits is never
/// said to exceed them unless the planner's own message says so.
pub proof fn lemma_editable_budget_is_reported(plan: SplitPlan, limits: SlicingLimits)
    ensures
        plan.slices@.len() == 1 && (plan.slices@[0].budget.editable_files > limits.max_editable_files
            || plan.slices@[0].budget.editable_symbols > limits.max_editable_symbols) ==> spec_split_reason(plan, limits)
            == ("editable-budget"@, "The candidate exceeds the configured editable target budget."@),
        plan.slices@.len() == 1 && plan.slices@[0].budget.editable_files <= limits.max_editable_files
            && plan.slices@[0].budget.editable_symbols <= limits.max_editable_symbols
            && spec_split_reason(plan, limits).0 == "editable-budget"@ ==> spec_split_reason(plan, limits).1
            == fallback_message(plan),
{
    if plan.slices@.len() == 1 {
        assert(plan.slices@.drop_last().len() == 0);
        assert(total_budget(plan.slices@.drop_last()) == (0nat, 0nat, 0nat, 0nat, 0nat));
        assert(plan.slices@.last() == plan.slices@[0]);
        reveal_strlit("editable-budget");
        reveal_strlit("verification-budget");
        reveal_strlit("readonly-budget");
        reveal_strlit("total-byte-budget");
        assert("verification-budget"@.len() != "editable-budget"@.len());
        assert("total-byte-budget"@.len() != "editable-budget"@.len());
        assert("readonly-budget"@[0] != "editable-budget"@[0]);
    }
}

/// A single-slice plan is split for the first limit it exceeds, in the
/// order editable, verification, read-only, total bytes; several slices
/// are always independent components.
pub proof fn lemma_first_exceeded_limit(plan: SplitPlan, limits: SlicingLimits)
    ensures
        plan.slices@.len() > 1 ==> spec_split_reason(plan, limits).0 == "independent-target-components"@,
        ({
            let b = plan.slices@[0].budget;
            plan.slices@.len() == 1 && b.editable_files <= limits.max_editable_files && b.editable_symbols
                <= limits.max_editable_symbols && b.verification_targets > limits.max_verification_targets
        }) ==> spec_split_reason(plan, limits).0 == "verification-budget"@,
        ({
            let b = plan.slices@[0].budget;
            plan.slices@.len() == 1 && b.editable_files <= limits.max_editable_files && b.editable_symbols
                <= limits.max_editable_symbols && b.verification_targets <= limits.max_verification_targets
                && b.readonly_targets > limits.max_readonly_targets
        }) ==> spec_split_reason(plan, limits).0 == "readonly-budget"@,
        ({
            let b = plan.slices@[0].budget;
            plan.slices@.len() == 1 && b.editable_files <= limits.max_editable_files && b.editable_symbols
                <= limits.max_editable_symbols && b.verification_targets <= limits.max_verification_targets
                && b.readonly_targets <= limits.max_readonly_targets && b.total_bytes > limits.max_total_bytes
        }) ==> spec_split_reason(plan, limits).0 == "total-byte-budget"@,
{
    if plan.slices@.len() == 1 {
        assert(plan.slices@.drop_last().len() == 0);
        assert(total_budget(plan.slices@.drop_last()) == (0nat, 0nat, 0nat, 0nat, 0nat));
        assert(plan.slices@.last() == plan.slices@[0]);
    }
}

} // verus!
