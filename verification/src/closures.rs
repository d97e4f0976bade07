//! Criterion closures of the specification trace: which exact targets
//! implement and verify a criterion, what is missing, and what a
//! verification receipt showed at run time.
use vstd::prelude::*;
use crate::catalog::{BindingSummary, BindingTargetSummary, ItemSummary, TargetClaim};
use crate::sorted::SortedStrings;
use crate::text::{append, owned, str_eq};

verus! {

// ---------------------------------------------------------------------------
// The claims of the catalog

/// A claim with the target that makes it.
#[derive(Debug, Clone)]
pub struct ClaimedTarget {
    pub reference: String,
    pub claim: TargetClaim,
}

pub open spec fn strings_view(v: Seq<String>) -> Seq<Seq<char>> {
    v.map_values(|s: String| s@)
}

/// A claim as a value: its kind (satisfies 0, verifies 1, documents 2,
/// enforces 3, generated-from 4, exposes 5, evidences 6), the anchor or
/// target it names, and the targets it lists (covers, generated-from).
pub open spec fn claim_view(c: TargetClaim) -> (nat, Seq<char>, Seq<Seq<char>>) {
    match c {
        TargetClaim::Satisfies { criterion } => (0, criterion@, Seq::empty()),
        TargetClaim::Verifies { criterion, covers } => (1, criterion@, strings_view(covers@)),
        TargetClaim::Documents { anchor } => (2, anchor@, Seq::empty()),
        TargetClaim::Enforces { rule } => (3, rule@, Seq::empty()),
        TargetClaim::GeneratedFrom { targets } => (4, Seq::empty(), strings_view(targets@)),
        TargetClaim::Exposes { target } => (5, target@, Seq::empty()),
        TargetClaim::Evidences { anchor } => (6, anchor@, Seq::empty()),
    }
}

pub open spec fn claimed_view(c: ClaimedTarget) -> (Seq<char>, (nat, Seq<char>, Seq<Seq<char>>)) {
    (c.reference@, claim_view(c.claim))
}

pub open spec fn claimed_views(v: Seq<ClaimedTarget>) -> Seq<(Seq<char>, (nat, Seq<char>, Seq<Seq<char>>))> {
    v.map_values(|c: ClaimedTarget| claimed_view(c))
}

pub open spec fn target_claims(t: BindingTargetSummary) -> Seq<(Seq<char>, (nat, Seq<char>, Seq<Seq<char>>))> {
    t.claims@.map_values(|c: TargetClaim| (t.reference@, claim_view(c)))
}

pub open spec fn binding_claims(b: BindingSummary) -> Seq<(Seq<char>, (nat, Seq<char>, Seq<Seq<char>>))> {
    b.targets@.map_values(|t: BindingTargetSummary| target_claims(t)).flatten()
}

pub open spec fn item_claims(i: ItemSummary) -> Seq<(Seq<char>, (nat, Seq<char>, Seq<Seq<char>>))> {
    i.bindings@.map_values(|b: BindingSummary| binding_claims(b)).flatten()
}

/// Every claim of every target of every binding of the catalog, in order.
pub open spec fn catalog_claims_spec(items: Seq<ItemSummary>) -> Seq<(Seq<char>, (nat, Seq<char>, Seq<Seq<char>>))> {
    items.map_values(|i: ItemSummary| item_claims(i)).flatten()
}

pub(crate) fn copy_strings(v: &Vec<String>) -> (r: Vec<String>)
    ensures
        strings_view(r@) == strings_view(v@),
{
    let mut r: Vec<String> = Vec::new();
    let mut i: usize = 0;
    while i < v.len()
        invariant
            i <= v.len(),
            r@.len() == i,
            forall|k: int| 0 <= k < i ==> #[trigger] r@[k]@ == v@[k]@,
        decreases v.len() - i,
    {
        r.push(owned(v[i].as_str()));
        i = i + 1;
    }
    assert(strings_view(r@) =~= strings_view(v@));
    r
}

pub(crate) fn copy_claim(c: &TargetClaim) -> (r: TargetClaim)
    ensures
        claim_view(r) == claim_view(*c),
{
    match c {
        TargetClaim::Satisfies { criterion } => TargetClaim::Satisfies { criterion: owned(criterion.as_str()) },
        TargetClaim::Verifies { criterion, covers } => TargetClaim::Verifies {
            criterion: owned(criterion.as_str()),
            covers: copy_strings(covers),
        },
        TargetClaim::Documents { anchor } => TargetClaim::Documents { anchor: owned(anchor.as_str()) },
        TargetClaim::Enforces { rule } => TargetClaim::Enforces { rule: owned(rule.as_str()) },
        TargetClaim::GeneratedFrom { targets } => TargetClaim::GeneratedFrom { targets: copy_strings(targets) },
        TargetClaim::Exposes { target } => TargetClaim::Exposes { target: owned(target.as_str()) },
        TargetClaim::Evidences { anchor } => TargetClaim::Evidences { anchor: owned(anchor.as_str()) },
    }
}

fn push_target_claims(t: &BindingTargetSummary, out: &mut Vec<ClaimedTarget>)
    ensures
        claimed_views(final(out)@) == claimed_views(old(out)@) + target_claims(*t),
{
    let ghost start = claimed_views(out@);
    let ghost tc = target_claims(*t);
    let mut k: usize = 0;
    while k < t.claims.len()
        invariant
            k <= t.claims.len(),
            tc == target_claims(*t),
            claimed_views(out@) == start + tc.take(k as int),
        decreases t.claims.len() - k,
    {
        let ghost before = out@;
        let entry = ClaimedTarget { reference: owned(t.reference.as_str()), claim: copy_claim(&t.claims[k]) };
        out.push(entry);
        proof {
            assert(claimed_views(out@) =~= claimed_views(before).push(claimed_view(entry)));
            assert(tc.take(k + 1) =~= tc.take(k as int).push(tc[k as int]));
        }
        k = k + 1;
    }
    assert(tc.take(k as int) =~= tc);
}

fn push_binding_claims(b: &BindingSummary, out: &mut Vec<ClaimedTarget>)
    ensures
        claimed_views(final(out)@) == claimed_views(old(out)@) + binding_claims(*b),
{
    let ghost start = claimed_views(out@);
    let ghost parts = b.targets@.map_values(|t: BindingTargetSummary| target_claims(t));
    let mut k: usize = 0;
    assert(parts.take(0).flatten() =~= Seq::empty());
    while k < b.targets.len()
        invariant
            k <= b.targets.len(),
            parts == b.targets@.map_values(|t: BindingTargetSummary| target_claims(t)),
            claimed_views(out@) == start + parts.take(k as int).flatten(),
        decreases b.targets.len() - k,
    {
        push_target_claims(&b.targets[k], out);
        proof {
            assert(parts.take(k + 1) =~= parts.take(k as int).push(parts[k as int]));
            parts.take(k as int).lemma_flatten_push(parts[k as int]);
        }
        k = k + 1;
    }
    assert(parts.take(k as int) =~= parts);
}

pub(crate) fn push_item_claims(i: &ItemSummary, out: &mut Vec<ClaimedTarget>)
    ensures
        claimed_views(final(out)@) == claimed_views(old(out)@) + item_claims(*i),
{
    let ghost start = claimed_views(out@);
    let ghost parts = i.bindings@.map_values(|b: BindingSummary| binding_claims(b));
    let mut k: usize = 0;
    assert(parts.take(0).flatten() =~= Seq::empty());
    while k < i.bindings.len()
        invariant
            k <= i.bindings.len(),
            parts == i.bindings@.map_values(|b: BindingSummary| binding_claims(b)),
            claimed_views(out@) == start + parts.take(k as int).flatten(),
        decreases i.bindings.len() - k,
    {
        push_binding_claims(&i.bindings[k], out);
        proof {
            assert(parts.take(k + 1) =~= parts.take(k as int).push(parts[k as int]));
            parts.take(k as int).lemma_flatten_push(parts[k as int]);
        }
        k = k + 1;
    }
    assert(parts.take(k as int) =~= parts);
}

/// Every claim of the catalog with the target that makes it.
pub fn catalog_claims(items: &Vec<ItemSummary>) -> (r: Vec<ClaimedTarget>)
    ensures
        claimed_views(r@) == catalog_claims_spec(items@),
{
    let mut out: Vec<ClaimedTarget> = Vec::new();
    let ghost parts = items@.map_values(|i: ItemSummary| item_claims(i));
    let mut k: usize = 0;
    assert(parts.take(0).flatten() =~= Seq::empty());
    assert(claimed_views(out@) =~= Seq::empty());
    while k < items.len()
        invariant
            k <= items.len(),
            parts == items@.map_values(|i: ItemSummary| item_claims(i)),
            claimed_views(out@) == parts.take(k as int).flatten(),
        decreases items.len() - k,
    {
        push_item_claims(&items[k], &mut out);
        proof {
            assert(parts.take(k + 1) =~= parts.take(k as int).push(parts[k as int]));
            parts.take(k as int).lemma_flatten_push(parts[k as int]);
        }
        k = k + 1;
    }
    assert(parts.take(k as int) =~= parts);
    out
}

// ---------------------------------------------------------------------------
// Known targets

pub open spec fn binding_refs(b: BindingSummary) -> Seq<Seq<char>> {
    b.targets@.map_values(|t: BindingTargetSummary| t.reference@)
}

pub open spec fn item_refs(i: ItemSummary) -> Seq<Seq<char>> {
    i.bindings@.map_values(|b: BindingSummary| binding_refs(b)).flatten()
}

/// The references of every target of the catalog.
pub open spec fn catalog_refs(items: Seq<ItemSummary>) -> Seq<Seq<char>> {
    items.map_values(|i: ItemSummary| item_refs(i)).flatten()
}

/// Adds all of `v` to `set`.
pub fn insert_all(set: &mut SortedStrings, v: &Vec<String>)
    ensures
        final(set)@.to_set() == old(set)@.to_set() + strings_view(v@).to_set(),
{
    let ghost start = set@.to_set();
    let mut i: usize = 0;
    while i < v.len()
        invariant
            i <= v.len(),
            set@.to_set() == start + strings_view(v@).take(i as int).to_set(),
        decreases v.len() - i,
    {
        set.insert(v[i].as_str());
        proof {
            let sv = strings_view(v@);
            let a = sv.take(i + 1);
            let b = sv.take(i as int);
            let x0 = v@[i as int]@;
            assert(a =~= b.push(x0));
            assert(a.to_set() =~= b.to_set().insert(x0)) by {
                assert forall|x: Seq<char>| #[trigger] a.to_set().contains(x) <==> b.to_set().insert(
                    x0,
                ).contains(x) by {
                    if a.contains(x) {
                        let j = choose|j: int| 0 <= j < a.len() && a[j] == x;
                        if j < i {
                            assert(b[j] == x);
                        }
                    }
                    if b.contains(x) {
                        let j = choose|j: int| 0 <= j < b.len() && b[j] == x;
                        assert(a[j] == x);
                    }
                    if x == x0 {
                        assert(a[i as int] == x);
                    }
                }
            }
        }
        i = i + 1;
    }
    assert(strings_view(v@).take(i as int) =~= strings_view(v@));
}

fn push_refs(out: &mut Vec<String>, b: &BindingSummary)
    ensures
        strings_view(final(out)@) == strings_view(old(out)@) + binding_refs(*b),
{
    let ghost start = strings_view(out@);
    let mut k: usize = 0;
    while k < b.targets.len()
        invariant
            k <= b.targets.len(),
            strings_view(out@) == start + binding_refs(*b).take(k as int),
        decreases b.targets.len() - k,
    {
        let ghost before = out@;
        out.push(owned(b.targets[k].reference.as_str()));
        proof {
            assert(strings_view(out@) =~= strings_view(before).push(b.targets@[k as int].reference@));
            assert(binding_refs(*b).take(k + 1) =~= binding_refs(*b).take(k as int).push(
                b.targets@[k as int].reference@,
            ));
        }
        k = k + 1;
    }
    assert(binding_refs(*b).take(k as int) =~= binding_refs(*b));
}

fn push_item_refs(out: &mut Vec<String>, i: &ItemSummary)
    ensures
        strings_view(final(out)@) == strings_view(old(out)@) + item_refs(*i),
{
    let ghost start = strings_view(out@);
    let ghost parts = i.bindings@.map_values(|b: BindingSummary| binding_refs(b));
    let mut k: usize = 0;
    assert(parts.take(0).flatten() =~= Seq::empty());
    while k < i.bindings.len()
        invariant
            k <= i.bindings.len(),
            parts == i.bindings@.map_values(|b: BindingSummary| binding_refs(b)),
            strings_view(out@) == start + parts.take(k as int).flatten(),
        decreases i.bindings.len() - k,
    {
        push_refs(out, &i.bindings[k]);
        proof {
            assert(parts.take(k + 1) =~= parts.take(k as int).push(parts[k as int]));
            parts.take(k as int).lemma_flatten_push(parts[k as int]);
        }
        k = k + 1;
    }
    assert(parts.take(k as int) =~= parts);
}

/// The references of all targets of the catalog, as a set.
pub fn known_targets(items: &Vec<ItemSummary>) -> (r: SortedStrings)
    ensures
        r@.to_set() == catalog_refs(items@).to_set(),
{
    let mut refs: Vec<String> = Vec::new();
    let ghost parts = items@.map_values(|i: ItemSummary| item_refs(i));
    let mut k: usize = 0;
    assert(parts.take(0).flatten() =~= Seq::empty());
    assert(strings_view(refs@) =~= Seq::empty());
    while k < items.len()
        invariant
            k <= items.len(),
            parts == items@.map_values(|i: ItemSummary| item_refs(i)),
            strings_view(refs@) == parts.take(k as int).flatten(),
        decreases items.len() - k,
    {
        push_item_refs(&mut refs, &items[k]);
        proof {
            assert(parts.take(k + 1) =~= parts.take(k as int).push(parts[k as int]));
            parts.take(k as int).lemma_flatten_push(parts[k as int]);
        }
        k = k + 1;
    }
    assert(parts.take(k as int) =~= parts);
    let mut set = SortedStrings::new();
    insert_all(&mut set, &refs);
    assert(Seq::<Seq<char>>::empty().to_set() + catalog_refs(items@).to_set() =~= catalog_refs(items@).to_set());
    set
}

// ---------------------------------------------------------------------------
// Closure targets

/// The targets that implement criterion `c`: those the index records, those
/// that claim to satisfy `c`, and those that a verification of `c` covers.
pub open spec fn implementation_set(
    c: Seq<char>,
    index: Seq<Seq<char>>,
    claims: Seq<(Seq<char>, (nat, Seq<char>, Seq<Seq<char>>))>,
) -> Set<Seq<char>> {
    Set::new(
        |r: Seq<char>|
            index.contains(r) || (exists|k: int|
                0 <= k < claims.len() && claims[k].0 == r && claims[k].1.0 == 0 && claims[k].1.1 == c)
                || (exists|k: int|
                0 <= k < claims.len() && claims[k].1.0 == 1 && claims[k].1.1 == c
                    && claims[k].1.2.contains(r)),
    )
}

/// The targets that verify criterion `c`: those the index records and those
/// that claim to verify `c`.
pub open spec fn verification_set(
    c: Seq<char>,
    index: Seq<Seq<char>>,
    claims: Seq<(Seq<char>, (nat, Seq<char>, Seq<Seq<char>>))>,
) -> Set<Seq<char>> {
    Set::new(
        |r: Seq<char>|
            index.contains(r) || exists|k: int|
                0 <= k < claims.len() && claims[k].0 == r && claims[k].1.0 == 1 && claims[k].1.1 == c,
    )
}

/// The implementation and verification targets of criterion `c`, each in
/// order and without repetition.
pub fn closure_targets(
    criterion: &str,
    index_implementation: &Vec<String>,
    index_verification: &Vec<String>,
    claims: &Vec<ClaimedTarget>,
) -> (r: (SortedStrings, SortedStrings))
    ensures
        r.0@.to_set() == implementation_set(
            criterion@,
            strings_view(index_implementation@),
            claimed_views(claims@),
        ),
        r.1@.to_set() == verification_set(
            criterion@,
            strings_view(index_verification@),
            claimed_views(claims@),
        ),
{
    let ghost cv = claimed_views(claims@);
    let ghost c = criterion@;
    let mut implementation = SortedStrings::new();
    let mut verification = SortedStrings::new();
    insert_all(&mut implementation, index_implementation);
    insert_all(&mut verification, index_verification);
    let ghost ii = strings_view(index_implementation@);
    let ghost iv = strings_view(index_verification@);
    assert(implementation@.to_set() =~= ii.to_set());
    assert(verification@.to_set() =~= iv.to_set());
    let mut k: usize = 0;
    while k < claims.len()
        invariant
            k <= claims.len(),
            cv == claimed_views(claims@),
            cv.len() == claims@.len(),
            c == criterion@,
            ii == strings_view(index_implementation@),
            iv == strings_view(index_verification@),
            implementation@.to_set() == implementation_set(c, ii, cv.take(k as int)),
            verification@.to_set() == verification_set(c, iv, cv.take(k as int)),
        decreases claims.len() - k,
    {
        let entry = &claims[k];
        let ghost before_i = implementation@.to_set();
        let ghost before_v = verification@.to_set();
        proof {
            assert(cv[k as int] == claimed_view(*entry));
        }
        match &entry.claim {
            TargetClaim::Satisfies { criterion: claimed } => {
                if str_eq(claimed.as_str(), criterion) {
                    implementation.insert(entry.reference.as_str());
                }
            },
            TargetClaim::Verifies { criterion: claimed, covers } => {
                if str_eq(claimed.as_str(), criterion) {
                    verification.insert(entry.reference.as_str());
                    insert_all(&mut implementation, covers);
                }
            },
            _ => {},
        }
        proof {
            let pre = cv.take(k as int);
            let post = cv.take(k + 1);
            assert(post =~= pre.push(cv[k as int]));
            assert(implementation@.to_set() =~= implementation_set(c, ii, post)) by {
                assert forall|r: Seq<char>| #[trigger] implementation_set(c, ii, post).contains(r)
                    == implementation@.to_set().contains(r) by {
                    if exists|j: int|
                        0 <= j < post.len() && post[j].0 == r && post[j].1.0 == 0 && post[j].1.1 == c {
                        let j = choose|j: int|
                            0 <= j < post.len() && post[j].0 == r && post[j].1.0 == 0 && post[j].1.1 == c;
                        if j < k {
                            assert(pre[j] == post[j]);
                        }
                    }
                    if exists|j: int|
                        0 <= j < post.len() && post[j].1.0 == 1 && post[j].1.1 == c && post[j].1.2.contains(r) {
                        let j = choose|j: int|
                            0 <= j < post.len() && post[j].1.0 == 1 && post[j].1.1 == c
                                && post[j].1.2.contains(r);
                        if j < k {
                            assert(pre[j] == post[j]);
                        }
                    }
                    if exists|j: int|
                        0 <= j < pre.len() && pre[j].0 == r && pre[j].1.0 == 0 && pre[j].1.1 == c {
                        let j = choose|j: int|
                            0 <= j < pre.len() && pre[j].0 == r && pre[j].1.0 == 0 && pre[j].1.1 == c;
                        assert(post[j] == pre[j]);
                    }
                    if exists|j: int|
                        0 <= j < pre.len() && pre[j].1.0 == 1 && pre[j].1.1 == c && pre[j].1.2.contains(r) {
                        let j = choose|j: int|
                            0 <= j < pre.len() && pre[j].1.0 == 1 && pre[j].1.1 == c
                                && pre[j].1.2.contains(r);
                        assert(post[j] == pre[j]);
                    }
                    if post[k as int].1.0 == 1 && post[k as int].1.1 == c && post[k as int].1.2.contains(r) {
                        assert(strings_view(
                            match entry.claim {
                                TargetClaim::Verifies { criterion: _, covers } => covers@,
                                _ => Seq::<String>::empty(),
                            },
                        ).to_set().contains(r));
                    }
                }
            }
            assert(verification@.to_set() =~= verification_set(c, iv, post)) by {
                assert forall|r: Seq<char>| #[trigger] verification_set(c, iv, post).contains(r)
                    == verification@.to_set().contains(r) by {
                    if exists|j: int|
                        0 <= j < post.len() && post[j].0 == r && post[j].1.0 == 1 && post[j].1.1 == c {
                        let j = choose|j: int|
                            0 <= j < post.len() && post[j].0 == r && post[j].1.0 == 1 && post[j].1.1 == c;
                        if j < k {
                            assert(pre[j] == post[j]);
                        }
                    }
                    if exists|j: int|
                        0 <= j < pre.len() && pre[j].0 == r && pre[j].1.0 == 1 && pre[j].1.1 == c {
                        let j = choose|j: int|
                            0 <= j < pre.len() && pre[j].0 == r && pre[j].1.0 == 1 && pre[j].1.1 == c;
                        assert(post[j] == pre[j]);
                    }
                    if post[k as int].0 == r && post[k as int].1.0 == 1 && post[k as int].1.1 == c {
                        assert(verification@.to_set().contains(r));
                    }
                    if verification@.to_set().contains(r) && !before_v.contains(r) {
                        assert(post[k as int].0 == r && post[k as int].1.0 == 1 && post[k as int].1.1 == c);
                    }
                }
            }
        }
        k = k + 1;
    }
    assert(cv.take(k as int) =~= cv);
    (implementation, verification)
}

// ---------------------------------------------------------------------------
// Closure views

/// The exact target/criterion pair an execution verified.
#[derive(Debug, Clone)]
pub struct VerificationClaimView {
    pub target: String,
    pub criterion: String,
}

/// One execution of a verification receipt.
#[derive(Debug, Clone)]
pub struct VerificationExecutionView {
    /// Receipt-local identity, distinct from the target.
    pub identity: String,
    pub target: String,
    pub claim: Option<VerificationClaimView>,
    pub status: String,
}

/// A verification receipt.
#[derive(Debug, Clone)]
pub struct VerificationReceiptView {
    pub slice_id: String,
    pub status: String,
    pub revision: String,
    pub workspace_fingerprint: String,
    pub started_at: String,
    pub completed_at: String,
    pub executions: Vec<VerificationExecutionView>,
}

/// A diagnostic shown on a closure.
#[derive(Debug, Clone)]
pub struct TraceDiagnosticView {
    pub identity: String,
    pub severity: String,
    pub message: String,
    pub reason: Option<String>,
}

/// What is known of one criterion's closure.
#[derive(Debug, Clone)]
pub struct CriterionClosureView {
    pub criterion: String,
    pub implementation_targets: Vec<String>,
    pub verification_targets: Vec<String>,
    pub state: String,
    pub reasons: Vec<String>,
    /// Run-time facts come only from a verification receipt.
    pub runtime_status: String,
    pub runtime_timestamp: Option<String>,
    pub runtime_revision: Option<String>,
    pub runtime_receipt: Option<String>,
    pub runtime_executions: Vec<VerificationExecutionView>,
    pub readiness_blockers: Vec<String>,
    pub diagnostics: Vec<TraceDiagnosticView>,
    pub hidden_target_count: usize,
    pub hidden_reason_count: usize,
    pub hidden_readiness_count: usize,
    pub hidden_diagnostic_count: usize,
}

pub open spec fn execution_view(e: VerificationExecutionView) -> (
    Seq<char>,
    Seq<char>,
    Option<(Seq<char>, Seq<char>)>,
    Seq<char>,
) {
    (e.identity@, e.target@, match e.claim {
        Some(c) => Some((c.target@, c.criterion@)),
        None => None,
    }, e.status@)
}

pub open spec fn executions_view(v: Seq<VerificationExecutionView>) -> Seq<
    (Seq<char>, Seq<char>, Option<(Seq<char>, Seq<char>)>, Seq<char>),
> {
    v.map_values(|e: VerificationExecutionView| execution_view(e))
}

/// An execution that verified exactly `(target, c)` for a declared
/// verification target of `c`.
pub open spec fn execution_matches(
    e: (Seq<char>, Seq<char>, Option<(Seq<char>, Seq<char>)>, Seq<char>),
    c: Seq<char>,
    verification: Set<Seq<char>>,
) -> bool {
    match e.2 {
        Some((target, criterion)) => criterion == c && target == e.1 && verification.contains(e.1),
        None => false,
    }
}

/// The state of a closure.
pub open spec fn closure_state(implementation_empty: bool, verification_empty: bool, unresolved: bool) -> Seq<char> {
    if implementation_empty {
        "implementation-missing"@
    } else if verification_empty {
        "verification-missing"@
    } else if unresolved {
        "target-unresolved"@
    } else {
        "declaration-only"@
    }
}

/// The reasons a closure gives before its readiness blockers and
/// diagnostics.
pub open spec fn closure_base_reasons(implementation_empty: bool, verification_empty: bool, unresolved: bool) -> Seq<Seq<char>> {
    (if implementation_empty {
        seq!["No exact implementation target satisfies this criterion."@]
    } else {
        Seq::empty()
    }) + (if verification_empty {
        seq!["No exact verification target covers this criterion."@]
    } else {
        Seq::empty()
    }) + (if unresolved {
        seq!["A claim points at a target that is not in the canonical projection."@]
    } else {
        Seq::empty()
    })
}

/// Some execution ran `target`.
pub open spec fn executed(
    matching: Seq<(Seq<char>, Seq<char>, Option<(Seq<char>, Seq<char>)>, Seq<char>)>,
    target: Seq<char>,
) -> bool {
    exists|k: int| 0 <= k < matching.len() && matching[k].1 == target
}

/// What the run-time evidence shows: nothing without matching executions;
/// a failure if one failed; partial when a declared verification target
/// has no execution; passed otherwise.
pub open spec fn runtime_status(
    matching: Seq<(Seq<char>, Seq<char>, Option<(Seq<char>, Seq<char>)>, Seq<char>)>,
    verification: Seq<Seq<char>>,
) -> Seq<char> {
    if matching.len() == 0 {
        "unavailable"@
    } else if exists|k: int| 0 <= k < matching.len() && matching[k].3 == "failed"@ {
        "failed"@
    } else if verification.len() == 0 || exists|t: int|
        0 <= t < verification.len() && !executed(matching, #[trigger] verification[t]) {
        "partial"@
    } else {
        "passed"@
    }
}

pub open spec fn diagnostic_messages(ds: Seq<TraceDiagnosticView>) -> Seq<Seq<char>> {
    ds.map_values(|d: TraceDiagnosticView| d.message@)
}

fn copy_execution(e: &VerificationExecutionView) -> (r: VerificationExecutionView)
    ensures
        execution_view(r) == execution_view(*e),
{
    VerificationExecutionView {
        identity: owned(e.identity.as_str()),
        target: owned(e.target.as_str()),
        claim: match &e.claim {
            Some(c) => Some(VerificationClaimView { target: owned(c.target.as_str()), criterion: owned(c.criterion.as_str()) }),
            None => None,
        },
        status: owned(e.status.as_str()),
    }
}

fn matching_executions(
    executions: &Vec<VerificationExecutionView>,
    criterion: &str,
    verification: &SortedStrings,
) -> (r: Vec<VerificationExecutionView>)
    ensures
        executions_view(r@) == executions_view(executions@).filter(
            |e: (Seq<char>, Seq<char>, Option<(Seq<char>, Seq<char>)>, Seq<char>)|
                execution_matches(e, criterion@, verification@.to_set()),
        ),
{
    let ghost ev = executions_view(executions@);
    let ghost pred = |e: (Seq<char>, Seq<char>, Option<(Seq<char>, Seq<char>)>, Seq<char>)|
        execution_matches(e, criterion@, verification@.to_set());
    let mut r: Vec<VerificationExecutionView> = Vec::new();
    let mut i: usize = 0;
    proof {
        reveal(Seq::filter);
        assert(ev.take(0) =~= Seq::empty());
    }
    while i < executions.len()
        invariant
            i <= executions.len(),
            ev == executions_view(executions@),
            ev.len() == executions@.len(),
            pred == (|e: (Seq<char>, Seq<char>, Option<(Seq<char>, Seq<char>)>, Seq<char>)|
                execution_matches(e, criterion@, verification@.to_set())),
            executions_view(r@) == ev.take(i as int).filter(pred),
        decreases executions.len() - i,
    {
        let e = &executions[i];
        proof {
            assert(ev[i as int] == execution_view(*e));
        }
        let keep = match &e.claim {
            Some(c) => str_eq(c.criterion.as_str(), criterion) && str_eq(c.target.as_str(), e.target.as_str())
                && verification.contains(e.target.as_str()),
            None => false,
        };
        proof {
            assert(verification@.contains(e.target@) == verification@.to_set().contains(e.target@));
            assert(keep == pred(ev[i as int]));
            assert(ev.take(i + 1).drop_last() =~= ev.take(i as int));
            assert(ev.take(i + 1).last() == ev[i as int]);
            assert(ev.take(i + 1).filter(pred) == (if pred(ev[i as int]) {
                ev.take(i as int).filter(pred).push(ev[i as int])
            } else {
                ev.take(i as int).filter(pred)
            })) by {
                reveal(Seq::filter);
            }
        }
        if keep {
            let ghost before = r@;
            let copy = copy_execution(e);
            r.push(copy);
            proof {
                assert(executions_view(r@) =~= executions_view(before).push(execution_view(copy)));
            }
        }
        i = i + 1;
    }
    assert(ev.take(i as int) =~= ev);
    r
}

/// Some target of `targets` is not a known target of the catalog.
pub open spec fn has_unresolved(targets: Seq<Seq<char>>, known: Seq<Seq<char>>) -> bool {
    exists|t: int| 0 <= t < targets.len() && !known.contains(#[trigger] targets[t])
}

fn any_unresolved(targets: &Vec<String>, known: &SortedStrings) -> (r: bool)
    ensures
        r == has_unresolved(strings_view(targets@), known@),
{
    let mut i: usize = 0;
    while i < targets.len()
        invariant
            i <= targets.len(),
            forall|t: int| 0 <= t < i ==> known@.contains(#[trigger] strings_view(targets@)[t]),
        decreases targets.len() - i,
    {
        proof {
            assert(strings_view(targets@)[i as int] == targets@[i as int]@);
        }
        if !known.contains(targets[i].as_str()) {
            return true;
        }
        i = i + 1;
    }
    false
}

fn runtime_status_exec(
    matching: &Vec<VerificationExecutionView>,
    verification: &Vec<String>,
) -> (r: String)
    ensures
        r@ == runtime_status(executions_view(matching@), strings_view(verification@)),
{
    let ghost mv = executions_view(matching@);
    let ghost vv = strings_view(verification@);
    if matching.len() == 0 {
        return owned("unavailable");
    }
    let mut k: usize = 0;
    while k < matching.len()
        invariant
            k <= matching.len(),
            mv == executions_view(matching@),
            forall|j: int| 0 <= j < k ==> mv[j].3 != "failed"@,
        decreases matching.len() - k,
    {
        proof {
            assert(mv[k as int] == execution_view(matching@[k as int]));
        }
        if str_eq(matching[k].status.as_str(), "failed") {
            return owned("failed");
        }
        k = k + 1;
    }
    if verification.len() == 0 {
        return owned("partial");
    }
    assert(mv.len() == matching@.len());
    let mut t: usize = 0;
    while t < verification.len()
        invariant
            t <= verification.len(),
            mv == executions_view(matching@),
            vv == strings_view(verification@),
            mv.len() > 0,
            vv.len() > 0,
            forall|j: int| 0 <= j < mv.len() ==> mv[j].3 != "failed"@,
            forall|j: int| 0 <= j < t ==> executed(mv, #[trigger] vv[j]),
        decreases verification.len() - t,
    {
        let mut found = false;
        let mut k: usize = 0;
        while k < matching.len()
            invariant
                k <= matching.len(),
                t < verification.len(),
                mv == executions_view(matching@),
                vv == strings_view(verification@),
                !found ==> forall|j: int| 0 <= j < k ==> mv[j].1 != vv[t as int],
                found ==> executed(mv, vv[t as int]),
            decreases matching.len() - k,
        {
            proof {
                assert(mv[k as int] == execution_view(matching@[k as int]));
                assert(vv[t as int] == verification@[t as int]@);
            }
            if str_eq(matching[k].target.as_str(), verification[t].as_str()) {
                found = true;
            }
            k = k + 1;
        }
        if !found {
            proof {
                assert(!executed(mv, vv[t as int]));
                assert(!(exists|k: int| 0 <= k < mv.len() && mv[k].3 == "failed"@));
            }
            return owned("partial");
        }
        t = t + 1;
    }
    owned("passed")
}

fn copy_all(v: &Vec<String>) -> (r: Vec<String>)
    ensures
        strings_view(r@) == strings_view(v@),
{
    copy_strings(v)
}

/// What the closure of `criterion` is made of: its targets, its state and
/// reasons, its readiness blockers and diagnostics, and what the receipt
/// (when there is one) showed of it at run time; nothing is hidden yet.
pub open spec fn closure_built(
    r: CriterionClosureView,
    criterion: Seq<char>,
    iv: Seq<Seq<char>>,
    vv: Seq<Seq<char>>,
    known: Seq<Seq<char>>,
    blockers: Seq<Seq<char>>,
    diagnostics: Seq<TraceDiagnosticView>,
    receipt: Option<VerificationReceiptView>,
) -> bool {
    let unresolved = has_unresolved(iv + vv, known);
    let matching = match receipt {
        Some(rc) => executions_view(rc.executions@).filter(
            |e: (Seq<char>, Seq<char>, Option<(Seq<char>, Seq<char>)>, Seq<char>)|
                execution_matches(e, criterion, vv.to_set()),
        ),
        None => Seq::empty(),
    };
    &&& r.criterion@ == criterion
    &&& strings_view(r.implementation_targets@) == iv
    &&& strings_view(r.verification_targets@) == vv
    &&& r.state@ == closure_state(iv.len() == 0, vv.len() == 0, unresolved)
    &&& strings_view(r.reasons@) == closure_base_reasons(iv.len() == 0, vv.len() == 0, unresolved) + blockers
        + diagnostic_messages(diagnostics)
    &&& strings_view(r.readiness_blockers@) == blockers
    &&& r.diagnostics@ == diagnostics
    &&& executions_view(r.runtime_executions@) == matching
    &&& r.runtime_status@ == runtime_status(matching, vv)
    &&& match receipt {
        Some(rc) if matching.len() > 0 => {
            &&& r.runtime_timestamp matches Some(t) && t@ == rc.completed_at@
            &&& r.runtime_revision matches Some(v) && v@ == rc.revision@
            &&& r.runtime_receipt matches Some(id) && id@ == rc.slice_id@ + "@"@ + rc.revision@ + "@"@
                + rc.completed_at@
        },
        _ => r.runtime_timestamp is None && r.runtime_revision is None && r.runtime_receipt is None,
    }
    &&& r.hidden_target_count == 0 && r.hidden_reason_count == 0
    &&& r.hidden_readiness_count == 0 && r.hidden_diagnostic_count == 0
}

/// The closure of one criterion, from its implementation and verification
/// targets, the catalog's known targets, the readiness blockers and
/// diagnostics that concern it, and the current verification receipt.
pub fn criterion_closure(
    criterion: &str,
    implementation: &SortedStrings,
    verification: &SortedStrings,
    known: &SortedStrings,
    readiness_blockers: Vec<String>,
    diagnostics: Vec<TraceDiagnosticView>,
    receipt: Option<&VerificationReceiptView>,
) -> (r: CriterionClosureView)
    ensures
        closure_built(
            r,
            criterion@,
            implementation@,
            verification@,
            known@,
            strings_view(readiness_blockers@),
            diagnostics@,
            match receipt {
                Some(rc) => Some(*rc),
                None => None,
            },
        ),
        ({
            let iv = implementation@;
            let vv = verification@;
            let unresolved = has_unresolved(iv + vv, known@);
            let matching = match receipt {
                Some(rc) => executions_view(rc.executions@).filter(
                    |e: (Seq<char>, Seq<char>, Option<(Seq<char>, Seq<char>)>, Seq<char>)|
                        execution_matches(e, criterion@, vv.to_set()),
                ),
                None => Seq::empty(),
            };
            &&& r.criterion@ == criterion@
            &&& strings_view(r.implementation_targets@) == iv
            &&& strings_view(r.verification_targets@) == vv
            &&& r.state@ == closure_state(iv.len() == 0, vv.len() == 0, unresolved)
            &&& strings_view(r.reasons@) == closure_base_reasons(iv.len() == 0, vv.len() == 0, unresolved)
                + strings_view(readiness_blockers@) + diagnostic_messages(diagnostics@)
            &&& strings_view(r.readiness_blockers@) == strings_view(readiness_blockers@)
            &&& r.diagnostics@ == diagnostics@
            &&& executions_view(r.runtime_executions@) == matching
            &&& r.runtime_status@ == runtime_status(matching, vv)
            &&& match receipt {
                Some(rc) if matching.len() > 0 => {
                    &&& r.runtime_timestamp matches Some(t) && t@ == rc.completed_at@
                    &&& r.runtime_revision matches Some(v) && v@ == rc.revision@
                    &&& r.runtime_receipt matches Some(id) && id@ == rc.slice_id@ + "@"@ + rc.revision@
                        + "@"@ + rc.completed_at@
                },
                _ => r.runtime_timestamp is None && r.runtime_revision is None && r.runtime_receipt is None,
            }
            &&& r.hidden_target_count == 0 && r.hidden_reason_count == 0
            &&& r.hidden_readiness_count == 0 && r.hidden_diagnostic_count == 0
        }),
{
    let implementation_targets = implementation.to_vec();
    let verification_targets = verification.to_vec();
    let unresolved = any_unresolved(&implementation_targets, known) || any_unresolved(
        &verification_targets,
        known,
    );
    let ghost iv = implementation@;
    let ghost vv = verification@;
    proof {
        let all = iv + vv;
        if has_unresolved(iv, known@) {
            let t = choose|t: int| 0 <= t < iv.len() && !known@.contains(#[trigger] iv[t]);
            assert(all[t] == iv[t]);
        }
        if has_unresolved(vv, known@) {
            let t = choose|t: int| 0 <= t < vv.len() && !known@.contains(#[trigger] vv[t]);
            assert(all[iv.len() + t] == vv[t]);
        }
        if has_unresolved(all, known@) {
            let t = choose|t: int| 0 <= t < all.len() && !known@.contains(#[trigger] all[t]);
            if t < iv.len() {
                assert(all[t] == iv[t]);
            } else {
                assert(all[t] == vv[t - iv.len()]);
            }
        }
    }
    let i_empty = implementation_targets.len() == 0;
    let v_empty = verification_targets.len() == 0;
    let state = if i_empty {
        "implementation-missing"
    } else if v_empty {
        "verification-missing"
    } else if unresolved {
        "target-unresolved"
    } else {
        "declaration-only"
    };
    let mut reasons: Vec<String> = Vec::new();
    if i_empty {
        reasons.push(owned("No exact implementation target satisfies this criterion."));
    }
    if v_empty {
        reasons.push(owned("No exact verification target covers this criterion."));
    }
    if unresolved {
        reasons.push(owned("A claim points at a target that is not in the canonical projection."));
    }
    let ghost base = strings_view(reasons@);
    proof {
        assert(base =~= closure_base_reasons(i_empty, v_empty, unresolved));
    }
    let mut k: usize = 0;
    while k < readiness_blockers.len()
        invariant
            k <= readiness_blockers.len(),
            strings_view(reasons@) == base + strings_view(readiness_blockers@).take(k as int),
        decreases readiness_blockers.len() - k,
    {
        let ghost before = reasons@;
        reasons.push(owned(readiness_blockers[k].as_str()));
        proof {
            assert(strings_view(reasons@) =~= strings_view(before).push(readiness_blockers@[k as int]@));
            assert(strings_view(readiness_blockers@).take(k + 1) =~= strings_view(readiness_blockers@).take(
                k as int,
            ).push(readiness_blockers@[k as int]@));
        }
        k = k + 1;
    }
    assert(strings_view(readiness_blockers@).take(k as int) =~= strings_view(readiness_blockers@));
    let ghost base2 = strings_view(reasons@);
    let mut k: usize = 0;
    while k < diagnostics.len()
        invariant
            k <= diagnostics.len(),
            strings_view(reasons@) == base2 + diagnostic_messages(diagnostics@).take(k as int),
        decreases diagnostics.len() - k,
    {
        let ghost before = reasons@;
        reasons.push(owned(diagnostics[k].message.as_str()));
        proof {
            assert(strings_view(reasons@) =~= strings_view(before).push(diagnostics@[k as int].message@));
            assert(diagnostic_messages(diagnostics@).take(k + 1) =~= diagnostic_messages(diagnostics@).take(
                k as int,
            ).push(diagnostics@[k as int].message@));
        }
        k = k + 1;
    }
    assert(diagnostic_messages(diagnostics@).take(k as int) =~= diagnostic_messages(diagnostics@));
    let matching = match receipt {
        Some(rc) => matching_executions(&rc.executions, criterion, verification),
        None => Vec::new(),
    };
    proof {
        if receipt is None {
            assert(executions_view(matching@) =~= Seq::empty());
        }
    }
    let runtime = runtime_status_exec(&matching, &verification_targets);
    let (timestamp, revision, receipt_id) = match receipt {
        Some(rc) => {
            if matching.len() > 0 {
                let mut id = owned(rc.slice_id.as_str());
                append(&mut id, "@");
                append(&mut id, rc.revision.as_str());
                append(&mut id, "@");
                append(&mut id, rc.completed_at.as_str());
                (Some(owned(rc.completed_at.as_str())), Some(owned(rc.revision.as_str())), Some(id))
            } else {
                (None, None, None)
            }
        },
        None => (None, None, None),
    };
    proof {
        assert(executions_view(matching@).len() == matching@.len());
    }
    CriterionClosureView {
        criterion: owned(criterion),
        implementation_targets,
        verification_targets,
        state: owned(state),
        reasons,
        runtime_status: runtime,
        runtime_timestamp: timestamp,
        runtime_revision: revision,
        runtime_receipt: receipt_id,
        runtime_executions: matching,
        readiness_blockers: copy_all(&readiness_blockers),
        diagnostics,
        hidden_target_count: 0,
        hidden_reason_count: 0,
        hidden_readiness_count: 0,
        hidden_diagnostic_count: 0,
    }
}

// ---------------------------------------------------------------------------
// Closure budget

pub open spec fn min_nat(a: nat, b: nat) -> nat {
    if a < b {
        a
    } else {
        b
    }
}

/// How many implementation and verification targets a closure keeps under
/// `budget`: implementation targets first, then verification targets in
/// what remains.
pub open spec fn kept_targets(implementation: nat, verification: nat, budget: nat) -> (nat, nat) {
    if implementation > budget {
        (budget, 0)
    } else {
        (implementation, min_nat(verification, (budget - implementation) as nat))
    }
}

/// A closure cut to `budget`: its targets as `kept_targets` says, and at
/// most `budget` reasons, readiness blockers and diagnostics, with what was
/// cut counted.
pub open spec fn closure_budgeted(before: CriterionClosureView, after: CriterionClosureView, budget: nat) -> bool {
    let il = before.implementation_targets@.len();
    let vl = before.verification_targets@.len();
    let (ik, vk) = kept_targets(il, vl, budget);
    &&& after.criterion == before.criterion && after.state == before.state
    &&& after.runtime_status == before.runtime_status
    &&& after.runtime_timestamp == before.runtime_timestamp
    &&& after.runtime_revision == before.runtime_revision
    &&& after.runtime_receipt == before.runtime_receipt
    &&& after.runtime_executions == before.runtime_executions
    &&& after.implementation_targets@ == before.implementation_targets@.take(ik as int)
    &&& after.verification_targets@ == before.verification_targets@.take(vk as int)
    &&& after.reasons@ == before.reasons@.take(min_nat(before.reasons@.len(), budget) as int)
    &&& after.readiness_blockers@ == before.readiness_blockers@.take(
        min_nat(before.readiness_blockers@.len(), budget) as int,
    )
    &&& after.diagnostics@ == before.diagnostics@.take(min_nat(before.diagnostics@.len(), budget) as int)
    &&& after.hidden_target_count == il + vl - (ik + vk)
    &&& after.hidden_reason_count == before.reasons@.len() - min_nat(before.reasons@.len(), budget)
    &&& after.hidden_readiness_count == before.readiness_blockers@.len() - min_nat(
        before.readiness_blockers@.len(),
        budget,
    )
    &&& after.hidden_diagnostic_count == before.diagnostics@.len() - min_nat(before.diagnostics@.len(), budget)
}

/// The hidden counts a budgeted closure adds to the trace totals: its own
/// hidden counts, and everything it still shows when the closure itself is
/// beyond the budget.
pub open spec fn hidden_contribution(after: CriterionClosureView, beyond: bool) -> (nat, nat, nat, nat) {
    (
        after.hidden_target_count as nat + if beyond {
            after.implementation_targets@.len() + after.verification_targets@.len()
        } else {
            0
        },
        after.hidden_reason_count as nat + if beyond {
            after.reasons@.len()
        } else {
            0
        },
        after.hidden_readiness_count as nat + if beyond {
            after.readiness_blockers@.len()
        } else {
            0
        },
        after.hidden_diagnostic_count as nat + if beyond {
            after.diagnostics@.len()
        } else {
            0
        },
    )
}

/// The hidden totals of the budgeted closures `cs`, the `k`-th being beyond
/// the budget when `k >= budget`.
pub open spec fn hidden_totals(cs: Seq<CriterionClosureView>, budget: nat) -> (nat, nat, nat, nat)
    decreases cs.len(),
{
    if cs.len() == 0 {
        (0, 0, 0, 0)
    } else {
        let rest = hidden_totals(cs.drop_last(), budget);
        let own = hidden_contribution(cs.last(), cs.len() - 1 >= budget);
        (rest.0 + own.0, rest.1 + own.1, rest.2 + own.2, rest.3 + own.3)
    }
}

/// The sizes of everything a closure lists.
pub open spec fn closure_size(c: CriterionClosureView) -> nat {
    c.implementation_targets@.len() + c.verification_targets@.len() + c.reasons@.len()
        + c.readiness_blockers@.len() + c.diagnostics@.len()
}

pub open spec fn closures_size(cs: Seq<CriterionClosureView>) -> nat
    decreases cs.len(),
{
    if cs.len() == 0 {
        0
    } else {
        closures_size(cs.drop_last()) + closure_size(cs.last())
    }
}

proof fn lemma_totals_bound(cs: Seq<CriterionClosureView>, budget: nat, before: Seq<CriterionClosureView>)
    requires
        cs.len() <= before.len(),
        forall|k: int| 0 <= k < cs.len() ==> closure_budgeted(before[k], #[trigger] cs[k], budget),
    ensures
        hidden_totals(cs, budget).0 + hidden_totals(cs, budget).1 + hidden_totals(cs, budget).2
            + hidden_totals(cs, budget).3 <= closures_size(before.take(cs.len() as int)),
    decreases cs.len(),
{
    if cs.len() > 0 {
        lemma_totals_bound(cs.drop_last(), budget, before);
        assert(before.take(cs.len() as int).drop_last() =~= before.take(cs.len() - 1));
        assert(closure_budgeted(before[cs.len() - 1], cs[cs.len() - 1], budget));
    }
}

proof fn lemma_size_prefix(cs: Seq<CriterionClosureView>, n: int)
    requires
        0 <= n <= cs.len(),
    ensures
        closures_size(cs.take(n)) <= closures_size(cs),
    decreases cs.len() - n,
{
    if n < cs.len() {
        lemma_size_prefix(cs, n + 1);
        assert(cs.take(n + 1).drop_last() =~= cs.take(n));
    } else {
        assert(cs.take(n) =~= cs);
    }
}

fn budget_closure(c: &mut CriterionClosureView, budget: usize)
    requires
        closure_size(*old(c)) <= usize::MAX,
    ensures
        closure_budgeted(*old(c), *final(c), budget as nat),
{
    let il = c.implementation_targets.len();
    let vl = c.verification_targets.len();
    let mut remaining = budget;
    if il > remaining {
        c.implementation_targets.truncate(remaining);
        remaining = 0;
    } else {
        remaining = remaining - il;
    }
    if vl > remaining {
        c.verification_targets.truncate(remaining);
    }
    let kept = c.implementation_targets.len() + c.verification_targets.len();
    c.hidden_target_count = il + vl - kept;
    let reason_count = c.reasons.len();
    let readiness_count = c.readiness_blockers.len();
    let diagnostic_count = c.diagnostics.len();
    c.reasons.truncate(budget);
    c.readiness_blockers.truncate(budget);
    c.diagnostics.truncate(budget);
    c.hidden_reason_count = reason_count - c.reasons.len();
    c.hidden_readiness_count = readiness_count - c.readiness_blockers.len();
    c.hidden_diagnostic_count = diagnostic_count - c.diagnostics.len();
    proof {
        let b = *old(c);
        assert(b.implementation_targets@.take(b.implementation_targets@.len() as int) =~= b.implementation_targets@);
        assert(b.verification_targets@.take(b.verification_targets@.len() as int) =~= b.verification_targets@);
        assert(b.reasons@.take(b.reasons@.len() as int) =~= b.reasons@);
        assert(b.readiness_blockers@.take(b.readiness_blockers@.len() as int) =~= b.readiness_blockers@);
        assert(b.diagnostics@.take(b.diagnostics@.len() as int) =~= b.diagnostics@);
    }
}

/// The hidden counts of closures cut to a budget.
#[derive(Debug, Clone, Copy)]
pub struct ClosureHiddenCounts {
    pub closures: usize,
    pub targets: usize,
    pub reasons: usize,
    pub readiness: usize,
    pub diagnostics: usize,
}

/// Cuts the closures to `budget`: each keeps at most `budget` targets,
/// reasons, readiness blockers and diagnostics, at most `budget` closures
/// stay, and everything cut is counted.
pub fn apply_closure_budget(closures: &mut Vec<CriterionClosureView>, budget: usize) -> (r: ClosureHiddenCounts)
    requires
        closures_size(old(closures)@) <= usize::MAX,
    ensures
        final(closures)@.len() == min_nat(old(closures)@.len(), budget as nat),
        exists|cut: Seq<CriterionClosureView>|
            {
                &&& cut.len() == old(closures)@.len()
                &&& (forall|k: int|
                    0 <= k < cut.len() ==> closure_budgeted(old(closures)@[k], #[trigger] cut[k], budget as nat))
                &&& final(closures)@ == cut.take(final(closures)@.len() as int)
                &&& (r.targets as nat, r.reasons as nat, r.readiness as nat, r.diagnostics as nat)
                    == hidden_totals(cut, budget as nat)
            },
        r.closures == old(closures)@.len() - min_nat(old(closures)@.len(), budget as nat),
{
    let ghost start = closures@;
    let n = closures.len();
    let mut targets: usize = 0;
    let mut reasons: usize = 0;
    let mut readiness: usize = 0;
    let mut diagnostics: usize = 0;
    let mut i: usize = 0;
    while i < n
        invariant
            i <= n,
            n == closures@.len(),
            n == start.len(),
            closures_size(start) <= usize::MAX,
            forall|k: int| 0 <= k < i ==> closure_budgeted(start[k], #[trigger] closures@[k], budget as nat),
            forall|k: int| i <= k < n ==> #[trigger] closures@[k] == start[k],
            (targets as nat, reasons as nat, readiness as nat, diagnostics as nat) == hidden_totals(
                closures@.take(i as int),
                budget as nat,
            ),
        decreases n - i,
    {
        let ghost before = closures@;
        let mut c = closures.remove(i);
        proof {
            lemma_size_prefix(start, i + 1);
            assert(start.take(i + 1).drop_last() =~= start.take(i as int));
            assert(start.take(i + 1).last() == start[i as int]);
            assert(c == start[i as int]);
        }
        budget_closure(&mut c, budget);
        let own_targets = c.hidden_target_count + if i >= budget {
            c.implementation_targets.len() + c.verification_targets.len()
        } else {
            0
        };
        let own_reasons = c.hidden_reason_count + if i >= budget {
            c.reasons.len()
        } else {
            0
        };
        let own_readiness = c.hidden_readiness_count + if i >= budget {
            c.readiness_blockers.len()
        } else {
            0
        };
        let own_diagnostics = c.hidden_diagnostic_count + if i >= budget {
            c.diagnostics.len()
        } else {
            0
        };
        closures.insert(i, c);
        proof {
            assert(closures@ =~= before.update(i as int, c));
            assert(closures@.take(i + 1).drop_last() =~= closures@.take(i as int)) by {
                assert(closures@.take(i as int) =~= before.take(i as int));
            }
            assert(closures@.take(i as int) =~= before.take(i as int));
            assert forall|k: int| 0 <= k < i + 1 implies closure_budgeted(start[k], #[trigger] closures@[k], budget as nat) by {
                if k < i {
                    assert(closures@[k] == before[k]);
                }
            }
            lemma_totals_bound(closures@.take(i + 1), budget as nat, start);
            lemma_size_prefix(start, i + 1);
            assert forall|k: int| 0 <= k < closures@.take(i + 1).len() implies closure_budgeted(
                start[k],
                #[trigger] closures@.take(i + 1)[k],
                budget as nat,
            ) by {
                assert(closures@.take(i + 1)[k] == closures@[k]);
            }
        }
        targets = targets + own_targets;
        reasons = reasons + own_reasons;
        readiness = readiness + own_readiness;
        diagnostics = diagnostics + own_diagnostics;
        i = i + 1;
    }
    let ghost cut = closures@;
    proof {
        assert(cut.take(n as int) =~= cut);
    }
    let hidden_closures = if n > budget {
        n - budget
    } else {
        0
    };
    closures.truncate(budget);
    proof {
        assert(closures@ =~= cut.take(closures@.len() as int));
    }
    ClosureHiddenCounts { closures: hidden_closures, targets, reasons, readiness, diagnostics }
}

// ---------------------------------------------------------------------------
// Receipts

/// One execution a verification run recorded.
#[derive(Debug, Clone)]
pub struct VerificationExecution {
    pub target: String,
    pub claim: Option<VerificationClaimView>,
    pub exit_code: i32,
}

/// What a verification run recorded.
#[derive(Debug, Clone)]
pub struct VerificationReceipt {
    pub slice_id: String,
    pub revision: String,
    pub workspace_fingerprint: String,
    pub started_at: String,
    pub completed_at: String,
    pub executions: Vec<VerificationExecution>,
}

pub open spec fn exit_status(code: i32) -> Seq<char> {
    if code == 0 {
        "passed"@
    } else {
        "failed"@
    }
}

/// The view of the `index`-th execution of a receipt for `slice_id`.
pub open spec fn execution_view_of(
    slice_id: Seq<char>,
    index: nat,
    e: VerificationExecution,
) -> (Seq<char>, Seq<char>, Option<(Seq<char>, Seq<char>)>, Seq<char>) {
    (slice_id + "#execution-"@ + crate::text::decimal(index), e.target@, match e.claim {
        Some(c) => Some((c.target@, c.criterion@)),
        None => None,
    }, exit_status(e.exit_code))
}

/// A receipt as the Work page shows it: passed when every execution
/// exited with zero.
pub fn verification_receipt_view(receipt: &VerificationReceipt) -> (r: VerificationReceiptView)
    ensures
        r.slice_id@ == receipt.slice_id@,
        r.revision@ == receipt.revision@,
        r.workspace_fingerprint@ == receipt.workspace_fingerprint@,
        r.started_at@ == receipt.started_at@,
        r.completed_at@ == receipt.completed_at@,
        r.status@ == (if forall|k: int| 0 <= k < receipt.executions@.len() ==> #[trigger] receipt.executions@[k].exit_code == 0 {
            "passed"@
        } else {
            "failed"@
        }),
        r.executions@.len() == receipt.executions@.len(),
        forall|k: int|
            0 <= k < receipt.executions@.len() ==> execution_view(#[trigger] r.executions@[k])
                == execution_view_of(receipt.slice_id@, k as nat, receipt.executions@[k]),
{
    let mut executions: Vec<VerificationExecutionView> = Vec::new();
    let mut all_passed = true;
    let mut k: usize = 0;
    while k < receipt.executions.len()
        invariant
            k <= receipt.executions.len(),
            executions@.len() == k,
            all_passed == forall|j: int| 0 <= j < k ==> #[trigger] receipt.executions@[j].exit_code == 0,
            forall|j: int|
                0 <= j < k ==> execution_view(#[trigger] executions@[j]) == execution_view_of(
                    receipt.slice_id@,
                    j as nat,
                    receipt.executions@[j],
                ),
        decreases receipt.executions.len() - k,
    {
        let e = &receipt.executions[k];
        let mut identity = owned(receipt.slice_id.as_str());
        append(&mut identity, "#execution-");
        let digits = crate::text::usize_to_decimal(k);
        append(&mut identity, digits.as_str());
        let view = VerificationExecutionView {
            identity,
            target: owned(e.target.as_str()),
            claim: match &e.claim {
                Some(c) => Some(VerificationClaimView { target: owned(c.target.as_str()), criterion: owned(c.criterion.as_str()) }),
                None => None,
            },
            status: owned(
                if e.exit_code == 0 {
                    "passed"
                } else {
                    "failed"
                },
            ),
        };
        executions.push(view);
        if e.exit_code != 0 {
            all_passed = false;
        }
        k = k + 1;
    }
    VerificationReceiptView {
        slice_id: owned(receipt.slice_id.as_str()),
        status: owned(
            if all_passed {
                "passed"
            } else {
                "failed"
            },
        ),
        revision: owned(receipt.revision.as_str()),
        workspace_fingerprint: owned(receipt.workspace_fingerprint.as_str()),
        started_at: owned(receipt.started_at.as_str()),
        completed_at: owned(receipt.completed_at.as_str()),
        executions,
    }
}

} // verus!
