//! Execution-slice selection: target transitions and the exact target
//! boundary that a selected slice becomes.
use vstd::prelude::*;
use crate::text::{chars_of, string_of};
use crate::trace::locate;

verus! {

/// What a unit of work does to one exact target.
#[derive(Debug, Clone, Copy, PartialEq, Eq, Structural)]
pub enum TargetTransition {
    Add,
    Modify,
    Remove,
    RunOnly,
    Readonly,
}

/// The kind of change a work request asks for.
#[derive(Debug, Clone, Copy, PartialEq, Eq, Structural)]
pub enum WorkOperation {
    Add,
    Modify,
    Remove,
    Refactor,
    Document,
    Investigate,
}

/// Transitions that change a target's content.
pub open spec fn spec_is_editable(t: TargetTransition) -> bool {
    t is Add || t is Modify || t is Remove
}

/// Whether `transition` edits its target.
pub fn is_editable_transition(transition: TargetTransition) -> (r: bool)
    ensures
        r == spec_is_editable(transition),
{
    match transition {
        TargetTransition::Add | TargetTransition::Modify | TargetTransition::Remove => true,
        _ => false,
    }
}

/// Editable transitions order first, then run-only, then read-only.
pub open spec fn spec_rank(t: TargetTransition) -> nat {
    if spec_is_editable(t) {
        0
    } else if t is RunOnly {
        1
    } else {
        2
    }
}

/// The order in which transitions of one target are considered.
pub fn requested_transition_rank(transition: TargetTransition) -> (r: u8)
    ensures
        r as nat == spec_rank(transition),
{
    match transition {
        TargetTransition::Add | TargetTransition::Modify | TargetTransition::Remove => 0,
        TargetTransition::RunOnly => 1,
        TargetTransition::Readonly => 2,
    }
}

/// The transition an operation implies for the targets it edits.
pub open spec fn spec_default_transition(operation: WorkOperation) -> TargetTransition {
    match operation {
        WorkOperation::Add => TargetTransition::Add,
        WorkOperation::Remove => TargetTransition::Remove,
        _ => TargetTransition::Modify,
    }
}

/// The editable transition of an operation.
pub fn work_default_transition(operation: WorkOperation) -> (r: TargetTransition)
    ensures
        r == spec_default_transition(operation),
{
    match operation {
        WorkOperation::Add => TargetTransition::Add,
        WorkOperation::Remove => TargetTransition::Remove,
        WorkOperation::Modify
        | WorkOperation::Refactor
        | WorkOperation::Document
        | WorkOperation::Investigate => TargetTransition::Modify,
    }
}

/// All transitions are the same one.
pub open spec fn homogeneous(ts: Seq<TargetTransition>) -> bool {
    forall|i: int, j: int| 0 <= i < ts.len() && 0 <= j < ts.len() ==> ts[i] == ts[j]
}

/// Whether the transitions hold at most one distinct value.
pub fn transitions_homogeneous(ts: &Vec<TargetTransition>) -> (r: bool)
    ensures
        r == homogeneous(ts@),
{
    if ts.len() == 0 {
        return true;
    }
    let first = ts[0];
    let mut i: usize = 1;
    while i < ts.len()
        invariant
            1 <= i <= ts.len(),
            first == ts@[0],
            forall|k: int| 0 <= k < i ==> ts@[k] == first,
        decreases ts.len() - i,
    {
        if ts[i] != first {
            return false;
        }
        i = i + 1;
    }
    true
}

// ---------------------------------------------------------------------------
// Target groups

/// Entries are (exact target reference, transition).
pub open spec fn in_group(s: Seq<(Seq<char>, TargetTransition)>, r: Seq<char>, i: int) -> bool {
    0 <= i < s.len() && s[i].0 == r
}

/// The entries for `r` agree: there is only one, or an editable transition
/// that every other entry repeats or runs (`RunOnly`).
pub open spec fn group_consistent(s: Seq<(Seq<char>, TargetTransition)>, r: Seq<char>) -> bool {
    (forall|i: int, j: int| in_group(s, r, i) && in_group(s, r, j) ==> i == j) || exists|i: int|
        #![trigger in_group(s, r, i)]
        in_group(s, r, i) && spec_is_editable(s[i].1) && forall|j: int|
            in_group(s, r, j) ==> s[j].1 == s[i].1 || s[j].1 == TargetTransition::RunOnly
}

/// `t` is a transition of `r` of the lowest rank among the entries for `r`.
pub open spec fn chosen_transition(
    s: Seq<(Seq<char>, TargetTransition)>,
    r: Seq<char>,
    t: TargetTransition,
) -> bool {
    exists|i: int|
        #![trigger in_group(s, r, i)]
        in_group(s, r, i) && s[i].1 == t && forall|j: int|
            in_group(s, r, j) ==> spec_rank(t) <= spec_rank(s[j].1)
}

pub open spec fn key_view(s: Seq<(Vec<char>, TargetTransition)>) -> Seq<(Seq<char>, TargetTransition)> {
    s.map_values(|e: (Vec<char>, TargetTransition)| (e.0@, e.1))
}

/// The transition that the entries for `r` resolve to, or `None` when they
/// conflict.
fn group_transition(s: &Vec<(Vec<char>, TargetTransition)>, r: &Vec<char>) -> (res: Option<
    TargetTransition,
>)
    requires
        exists|i: int| in_group(key_view(s@), r@, i),
    ensures
        res is Some <==> group_consistent(key_view(s@), r@),
        res matches Some(t) ==> chosen_transition(key_view(s@), r@, t),
{
    let ghost sv = key_view(s@);
    let mut first: Option<usize> = None;
    let mut two = false;
    let mut ed: Option<usize> = None;
    let mut bad = false;
    let mut k: usize = 0;
    while k < s.len()
        invariant
            k <= s.len(),
            sv == key_view(s@),
            sv.len() == s@.len(),
            first is None ==> forall|j: int| 0 <= j < k ==> !in_group(sv, r@, j),
            first matches Some(f) ==> f < k && in_group(sv, r@, f as int),
            two ==> exists|a: int, b: int|
                #![trigger in_group(sv, r@, a), in_group(sv, r@, b)]
                0 <= a < k && 0 <= b < k && a != b && in_group(sv, r@, a) && in_group(sv, r@, b),
            !two ==> forall|a: int, b: int|
                0 <= a < k && 0 <= b < k && in_group(sv, r@, a) && in_group(sv, r@, b) ==> a == b,
            ed is None ==> forall|j: int|
                0 <= j < k && in_group(sv, r@, j) ==> !spec_is_editable(sv[j].1),
            ed matches Some(e) ==> e < k && in_group(sv, r@, e as int) && spec_is_editable(
                sv[e as int].1,
            ),
            bad ==> exists|j: int|
                #![trigger in_group(sv, r@, j)]
                0 <= j < k && in_group(sv, r@, j) && (sv[j].1 == TargetTransition::Readonly || (
                spec_is_editable(sv[j].1) && ed is Some && sv[j].1 != sv[ed->0 as int].1)),
            !bad ==> forall|j: int|
                0 <= j < k && in_group(sv, r@, j) ==> sv[j].1 != TargetTransition::Readonly && (
                spec_is_editable(sv[j].1) ==> (ed is Some && sv[j].1 == sv[ed->0 as int].1)),
        decreases s.len() - k,
    {
        let same = crate::text::seq_eq(&s[k].0, r);
        proof {
            assert(sv[k as int] == (s@[k as int].0@, s@[k as int].1));
        }
        if same {
            let t = s[k].1;
            match first {
                None => {
                    first = Some(k);
                },
                Some(f) => {
                    two = true;
                    assert(in_group(sv, r@, f as int) && in_group(sv, r@, k as int));
                },
            }
            if is_editable_transition(t) {
                match ed {
                    None => {
                        ed = Some(k);
                    },
                    Some(e) => {
                        if s[e].1 != t {
                            bad = true;
                            assert(sv[e as int] == (s@[e as int].0@, s@[e as int].1));
                            assert(in_group(sv, r@, k as int));
                        }
                    },
                }
            } else if t == TargetTransition::Readonly {
                bad = true;
                assert(in_group(sv, r@, k as int));
            }
            proof {
                if !two {
                    assert forall|a: int, b: int|
                        0 <= a < k + 1 && 0 <= b < k + 1 && in_group(sv, r@, a) && in_group(
                            sv,
                            r@,
                            b,
                        ) implies a == b by {
                        assert(a == k && b == k);
                    }
                }
                if let Some(e) = ed {
                    assert(sv[e as int] == (s@[e as int].0@, s@[e as int].1));
                }
            }
        } else {
            assert(!in_group(sv, r@, k as int));
        }
        k = k + 1;
    }
    if !two {
        let f = first.unwrap();
        proof {
            assert(sv[f as int] == (s@[f as int].0@, s@[f as int].1));
            assert forall|j: int| in_group(sv, r@, j) implies spec_rank(s@[f as int].1) <= spec_rank(
                sv[j].1,
            ) by {
                assert(j == f);
            }
            assert(in_group(sv, r@, f as int));
        }
        return Some(s[f].1);
    }
    match ed {
        Some(e) => {
            if !bad {
                proof {
                    assert(sv[e as int] == (s@[e as int].0@, s@[e as int].1));
                    assert forall|j: int| in_group(sv, r@, j) implies sv[j].1 == sv[e as int].1
                        || sv[j].1 == TargetTransition::RunOnly by {
                        if !spec_is_editable(sv[j].1) && sv[j].1 != TargetTransition::RunOnly {
                            assert(sv[j].1 == TargetTransition::Readonly);
                        }
                    }
                    assert(in_group(sv, r@, e as int));
                }
                return Some(s[e].1);
            }
        },
        None => {},
    }
    proof {
        if group_consistent(sv, r@) {
            let (a, b) = choose|a: int, b: int|
                #![trigger in_group(sv, r@, a), in_group(sv, r@, b)]
                0 <= a < k && 0 <= b < k && a != b && in_group(sv, r@, a) && in_group(sv, r@, b);
            assert(in_group(sv, r@, a) && in_group(sv, r@, b));
            let i = choose|i: int|
                #![trigger in_group(sv, r@, i)]
                in_group(sv, r@, i) && spec_is_editable(sv[i].1) && forall|j: int|
                    in_group(sv, r@, j) ==> sv[j].1 == sv[i].1 || sv[j].1
                        == TargetTransition::RunOnly;
            assert(ed is Some);
            let e = ed->0 as int;
            assert(in_group(sv, r@, e));
            let j = choose|j: int|
                #![trigger in_group(sv, r@, j)]
                0 <= j < k && in_group(sv, r@, j) && (sv[j].1 == TargetTransition::Readonly || (
                spec_is_editable(sv[j].1) && ed is Some && sv[j].1 != sv[ed->0 as int].1));
            assert(in_group(sv, r@, j));
        }
    }
    None
}

// ---------------------------------------------------------------------------
// The exact target boundary of a slice

/// A target of an execution slice as the planner describes it.
#[derive(Debug, Clone)]
pub struct PlannedTarget {
    /// The canonical text of the exact target reference.
    pub reference: String,
    pub transition: TargetTransition,
    /// Whether the target is generated content (read, never edited).
    pub generated: bool,
}

/// One exact target that a selected request asks for.
#[derive(Debug, Clone)]
pub struct RequestedTarget {
    pub reference: String,
    pub transition: TargetTransition,
}

/// Why a slice cannot be selected as it stands.
#[derive(Debug, Clone, Copy, PartialEq, Eq, Structural)]
pub enum SelectionRefusal {
    /// The editable targets of the slice use more than one transition.
    MixedEditableTransitions,
    /// One exact target is derived with transitions that conflict.
    ConflictingTargetTransitions,
    /// The slice names no exact target and the operation is not an
    /// investigation.
    NoExactTargetBoundary,
}

impl SelectionRefusal {
    /// The machine-readable refusal code.
    pub fn code(&self) -> (r: &'static str)
        ensures
            r@ == (match *self {
                SelectionRefusal::NoExactTargetBoundary => "non-selectable-slice"@,
                _ => "mixed-transition"@,
            }),
    {
        match self {
            SelectionRefusal::NoExactTargetBoundary => "non-selectable-slice",
            _ => "mixed-transition",
        }
    }

    /// The message shown with the refusal.
    pub fn message(&self) -> (r: &'static str)
        ensures
            r@ == (match *self {
                SelectionRefusal::MixedEditableTransitions =>
                    "the selected slice contains multiple editable transitions"@,
                SelectionRefusal::ConflictingTargetTransitions =>
                    "the selected slice derives conflicting transitions for one exact target"@,
                SelectionRefusal::NoExactTargetBoundary =>
                    "the selected slice has no exact target boundary"@,
            }),
    {
        match self {
            SelectionRefusal::MixedEditableTransitions =>
                "the selected slice contains multiple editable transitions",
            SelectionRefusal::ConflictingTargetTransitions =>
                "the selected slice derives conflicting transitions for one exact target",
            SelectionRefusal::NoExactTargetBoundary =>
                "the selected slice has no exact target boundary",
        }
    }
}

pub open spec fn target_transitions(v: Seq<PlannedTarget>) -> Seq<TargetTransition> {
    v.map_values(|t: PlannedTarget| t.transition)
}

pub open spec fn target_keys(v: Seq<PlannedTarget>) -> Seq<(Seq<char>, TargetTransition)> {
    v.map_values(|t: PlannedTarget| (t.reference@, t.transition))
}

pub open spec fn requested_keys(v: Seq<RequestedTarget>) -> Seq<(Seq<char>, TargetTransition)> {
    v.map_values(|t: RequestedTarget| (t.reference@, t.transition))
}

/// The references of `out`, in order.
pub open spec fn out_references(out: Seq<(Seq<char>, TargetTransition)>) -> Seq<Seq<char>> {
    out.map_values(|e: (Seq<char>, TargetTransition)| e.0)
}

/// Some entry of `s` has reference `r`.
pub open spec fn has_entry(s: Seq<(Seq<char>, TargetTransition)>, r: Seq<char>) -> bool {
    exists|i: int| in_group(s, r, i)
}

/// Some entry of `out` has reference `r`.
pub open spec fn has_reference(out: Seq<(Seq<char>, TargetTransition)>, r: Seq<char>) -> bool {
    exists|k: int| 0 <= k < out.len() && out[k].0 == r
}

/// `out` is the exact boundary of the entries `s`: one entry per distinct
/// reference of `s`, in reference order, each with the transition of lowest
/// rank among its entries.
pub open spec fn exact_boundary(
    s: Seq<(Seq<char>, TargetTransition)>,
    out: Seq<(Seq<char>, TargetTransition)>,
) -> bool {
    &&& crate::trace::ids_sorted(out_references(out))
    &&& forall|k: int|
        #![trigger out[k]]
        0 <= k < out.len() ==> has_entry(s, out[k].0)
    &&& forall|i: int| #![trigger s[i]] 0 <= i < s.len() ==> has_reference(out, s[i].0)
    &&& forall|k: int|
        #![trigger out[k]]
        0 <= k < out.len() ==> chosen_transition(s, out[k].0, out[k].1)
}

/// Every reference's entries agree.
pub open spec fn all_consistent(s: Seq<(Seq<char>, TargetTransition)>) -> bool {
    forall|i: int| 0 <= i < s.len() ==> #[trigger] group_consistent(s, s[i].0)
}

/// The editable targets of a slice share one transition.
pub fn check_editable_transitions(editable: &Vec<PlannedTarget>) -> (r: Result<(), SelectionRefusal>)
    ensures
        r is Ok <==> homogeneous(target_transitions(editable@)),
        r matches Err(e) ==> e == SelectionRefusal::MixedEditableTransitions,
{
    let mut ts: Vec<TargetTransition> = Vec::new();
    let mut i: usize = 0;
    while i < editable.len()
        invariant
            i <= editable.len(),
            ts@ == target_transitions(editable@).take(i as int),
        decreases editable.len() - i,
    {
        ts.push(editable[i].transition);
        i = i + 1;
        assert(ts@ =~= target_transitions(editable@).take(i as int));
    }
    assert(ts@ =~= target_transitions(editable@));
    if transitions_homogeneous(&ts) {
        Ok(())
    } else {
        Err(SelectionRefusal::MixedEditableTransitions)
    }
}

fn push_keys(all: &mut Vec<(Vec<char>, TargetTransition)>, targets: &Vec<PlannedTarget>)
    ensures
        key_view(final(all)@) == key_view(old(all)@) + target_keys(targets@),
{
    let ghost start = key_view(all@);
    let mut i: usize = 0;
    while i < targets.len()
        invariant
            i <= targets.len(),
            key_view(all@) == start + target_keys(targets@).take(i as int),
        decreases targets.len() - i,
    {
        let key = chars_of(targets[i].reference.as_str());
        let t = targets[i].transition;
        let ghost before = all@;
        all.push((key, t));
        proof {
            assert(all@ == before.push((key, t)));
            assert(key_view(all@) =~= key_view(before).push((key@, t)));
            assert(target_keys(targets@)[i as int] == (key@, t));
            assert(target_keys(targets@).take(i + 1) =~= target_keys(targets@).take(i as int).push(
                (key@, t),
            ));
        }
        i = i + 1;
    }
    assert(target_keys(targets@).take(targets.len() as int) =~= target_keys(targets@));
}

pub open spec fn views(keys: Seq<Vec<char>>) -> Seq<Seq<char>> {
    keys.map_values(|v: Vec<char>| v@)
}

/// `r` is the reference of one of the first `i` entries.
#[verifier::opaque]
pub open spec fn seen_before(sv: Seq<(Seq<char>, TargetTransition)>, r: Seq<char>, i: int) -> bool {
    exists|j: int| 0 <= j < i && in_group(sv, r, j)
}

/// `r` is one of the references `kv`.
#[verifier::opaque]
pub open spec fn listed(kv: Seq<Seq<char>>, r: Seq<char>) -> bool {
    exists|k: int| 0 <= k < kv.len() && kv[k] == r
}

/// After reading the first `i` entries of `sv`: `kv`/`ts` hold each
/// reference seen so far once, in order, with its resolved transition, and
/// every reference seen so far is consistent.
pub open spec fn boundary_progress(
    sv: Seq<(Seq<char>, TargetTransition)>,
    kv: Seq<Seq<char>>,
    ts: Seq<TargetTransition>,
    i: int,
) -> bool {
    &&& kv.len() == ts.len()
    &&& crate::trace::ids_sorted(kv)
    &&& forall|k: int| #![trigger kv[k]] 0 <= k < kv.len() ==> seen_before(sv, kv[k], i)
    &&& forall|j: int| 0 <= j < i ==> #[trigger] listed(kv, sv[j].0)
    &&& forall|k: int|
        #![trigger kv[k]]
        0 <= k < kv.len() ==> chosen_transition(sv, kv[k], ts[k])
    &&& forall|j: int| 0 <= j < i ==> #[trigger] group_consistent(sv, sv[j].0)
}

proof fn lemma_progress_seen(
    sv: Seq<(Seq<char>, TargetTransition)>,
    kv: Seq<Seq<char>>,
    ts: Seq<TargetTransition>,
    i: int,
    p: int,
)
    requires
        0 <= i < sv.len(),
        boundary_progress(sv, kv, ts, i),
        0 <= p < kv.len(),
        kv[p] == sv[i].0,
    ensures
        boundary_progress(sv, kv, ts, i + 1),
{
    assert(seen_before(sv, kv[p], i));
    reveal(seen_before);
    let j = choose|j: int| 0 <= j < i && in_group(sv, kv[p], j);
    assert(in_group(sv, kv[p], j));
    assert(sv[j].0 == sv[i].0);
    assert(group_consistent(sv, sv[j].0));
    assert forall|k: int| #![trigger kv[k]] 0 <= k < kv.len() implies seen_before(sv, kv[k], i + 1) by {
        reveal(seen_before);
        assert(seen_before(sv, kv[k], i));
        let j = choose|j: int| 0 <= j < i && in_group(sv, kv[k], j);
        assert(0 <= j < i + 1 && in_group(sv, kv[k], j));
    }
    assert forall|j: int| 0 <= j < i + 1 implies #[trigger] listed(kv, sv[j].0) by {
        if j == i {
            reveal(listed);
            assert(0 <= p < kv.len() && kv[p] == sv[j].0);
        }
    }
}

proof fn lemma_progress_insert(
    sv: Seq<(Seq<char>, TargetTransition)>,
    kv: Seq<Seq<char>>,
    ts: Seq<TargetTransition>,
    i: int,
    p: int,
    t: TargetTransition,
)
    requires
        0 <= i < sv.len(),
        boundary_progress(sv, kv, ts, i),
        0 <= p <= kv.len(),
        forall|k: int| 0 <= k < p ==> crate::text::seq_lt(kv[k], sv[i].0),
        forall|k: int| p <= k < kv.len() ==> crate::text::seq_lt(sv[i].0, kv[k]),
        group_consistent(sv, sv[i].0),
        chosen_transition(sv, sv[i].0, t),
    ensures
        boundary_progress(sv, kv.insert(p, sv[i].0), ts.insert(p, t), i + 1),
{
    let nk = kv.insert(p, sv[i].0);
    let nt = ts.insert(p, t);
    assert forall|a: int, b: int| 0 <= a < b < nk.len() implies crate::text::seq_lt(nk[a], nk[b]) by {
        if b < p {
            assert(nk[a] == kv[a] && nk[b] == kv[b]);
        } else if b == p {
            assert(nk[a] == kv[a]);
        } else if a == p {
            assert(nk[b] == kv[b - 1]);
        } else if a < p {
            assert(nk[a] == kv[a] && nk[b] == kv[b - 1]);
        } else {
            assert(nk[a] == kv[a - 1] && nk[b] == kv[b - 1]);
        }
    }
    assert forall|k: int| #![trigger nk[k]] 0 <= k < nk.len() implies seen_before(sv, nk[k], i + 1) by {
        reveal(seen_before);
        if k < p {
            assert(nk[k] == kv[k]);
            assert(seen_before(sv, kv[k], i));
            let j = choose|j: int| 0 <= j < i && in_group(sv, kv[k], j);
            assert(0 <= j < i + 1 && in_group(sv, nk[k], j));
        } else if k == p {
            assert(0 <= i < i + 1 && in_group(sv, nk[k], i));
        } else {
            assert(nk[k] == kv[k - 1]);
            assert(seen_before(sv, kv[k - 1], i));
            let j = choose|j: int| #![trigger in_group(sv, kv[k - 1], j)] 0 <= j < i && in_group(sv, kv[k - 1], j);
            assert(0 <= j < i + 1 && in_group(sv, nk[k], j));
        }
    }
    assert forall|j: int| 0 <= j < i + 1 implies #[trigger] listed(nk, sv[j].0) by {
        reveal(listed);
        if j == i {
            assert(0 <= p < nk.len() && nk[p] == sv[j].0);
        } else {
            assert(listed(kv, sv[j].0));
            let k = choose|k: int| 0 <= k < kv.len() && kv[k] == sv[j].0;
            if k < p {
                assert(nk[k] == kv[k]);
            } else {
                assert(nk[k + 1] == kv[k]);
            }
        }
    }
    assert forall|k: int|
        #![trigger nk[k]]
        0 <= k < nk.len() implies chosen_transition(sv, nk[k], nt[k]) by {
        if k < p {
            assert(nk[k] == kv[k] && nt[k] == ts[k]);
        } else if k > p {
            assert(nk[k] == kv[k - 1] && nt[k] == ts[k - 1]);
        }
    }
    assert forall|j: int| 0 <= j < i + 1 implies #[trigger] group_consistent(sv, sv[j].0) by {
    }
}

/// The resolved boundary of the entries `all`, or `None` on a conflict.
fn resolve_boundary(all: &Vec<(Vec<char>, TargetTransition)>) -> (r: Option<
    (Vec<Vec<char>>, Vec<TargetTransition>),
>)
    ensures
        r is Some <==> all_consistent(key_view(all@)),
        r matches Some(p) ==> boundary_progress(key_view(all@), views(p.0@), p.1@, all@.len() as int),
{
    let ghost sv = key_view(all@);
    let mut keys: Vec<Vec<char>> = Vec::new();
    let mut ts: Vec<TargetTransition> = Vec::new();
    let mut i: usize = 0;
    assert(views(keys@) =~= Seq::<Seq<char>>::empty());
    while i < all.len()
        invariant
            i <= all.len(),
            sv == key_view(all@),
            sv.len() == all@.len(),
            boundary_progress(sv, views(keys@), ts@, i as int),
        decreases all.len() - i,
    {
        proof {
            assert(sv[i as int] == (all@[i as int].0@, all@[i as int].1));
        }
        match locate(&keys, &all[i].0) {
            Ok(p) => {
                proof {
                    assert(views(keys@)[p as int] == keys@[p as int]@);
                    lemma_progress_seen(sv, views(keys@), ts@, i as int, p as int);
                }
            },
            Err(p) => {
                proof {
                    assert(in_group(sv, all@[i as int].0@, i as int));
                }
                match group_transition(all, &all[i].0) {
                    None => {
                        return None;
                    },
                    Some(t) => {
                        let ghost old_kv = views(keys@);
                        let ghost old_ts = ts@;
                        let key = all[i].0.clone();
                        proof {
                            assert(key@ == all@[i as int].0@);
                            assert forall|k: int| 0 <= k < p implies crate::text::seq_lt(
                                old_kv[k],
                                sv[i as int].0,
                            ) by {
                                assert(old_kv[k] == keys@[k]@);
                            }
                            assert forall|k: int| p <= k < old_kv.len() implies crate::text::seq_lt(
                                sv[i as int].0,
                                old_kv[k],
                            ) by {
                                assert(old_kv[k] == keys@[k]@);
                            }
                            lemma_progress_insert(sv, old_kv, old_ts, i as int, p as int, t);
                        }
                        keys.insert(p, key);
                        ts.insert(p, t);
                        proof {
                            assert(views(keys@) =~= old_kv.insert(p as int, sv[i as int].0));
                        }
                    },
                }
            },
        }
        i = i + 1;
    }
    Some((keys, ts))
}

proof fn lemma_progress_boundary(
    sv: Seq<(Seq<char>, TargetTransition)>,
    kv: Seq<Seq<char>>,
    ts: Seq<TargetTransition>,
    out: Seq<(Seq<char>, TargetTransition)>,
)
    requires
        boundary_progress(sv, kv, ts, sv.len() as int),
        out.len() == kv.len(),
        forall|k: int| 0 <= k < out.len() ==> #[trigger] out[k] == (kv[k], ts[k]),
    ensures
        exact_boundary(sv, out),
        all_consistent(sv),
{
    assert(out_references(out) =~= kv) by {
        assert forall|k: int| 0 <= k < kv.len() implies out_references(out)[k] == kv[k] by {
            assert(out[k] == (kv[k], ts[k]));
        }
    }
    assert forall|k: int| #![trigger out[k]] 0 <= k < out.len() implies has_entry(sv, out[k].0) by {
        assert(out[k] == (kv[k], ts[k]));
        assert(seen_before(sv, kv[k], sv.len() as int));
        reveal(seen_before);
        let j = choose|j: int| 0 <= j < sv.len() && in_group(sv, kv[k], j);
        assert(in_group(sv, out[k].0, j));
    }
    assert forall|i: int| #![trigger sv[i]] 0 <= i < sv.len() implies has_reference(out, sv[i].0) by {
        assert(listed(kv, sv[i].0));
        reveal(listed);
        let k = choose|k: int| 0 <= k < kv.len() && kv[k] == sv[i].0;
        assert(out[k] == (kv[k], ts[k]));
    }
    assert forall|k: int| #![trigger out[k]] 0 <= k < out.len() implies chosen_transition(
        sv,
        out[k].0,
        out[k].1,
    ) by {
        assert(out[k] == (kv[k], ts[k]));
    }
    assert forall|i: int| 0 <= i < sv.len() implies #[trigger] group_consistent(sv, sv[i].0) by {
    }
}

/// The exact target boundary that selecting a slice requests: its editable,
/// verification and read-only targets, one entry per exact reference in
/// reference order, each with the transition of lowest rank.  A reference
/// whose entries conflict refuses the selection; so does an empty boundary,
/// unless the work only investigates.
pub fn slice_requested_targets(
    editable: &Vec<PlannedTarget>,
    verification: &Vec<PlannedTarget>,
    readonly: &Vec<PlannedTarget>,
    operation: WorkOperation,
) -> (r: Result<Vec<RequestedTarget>, SelectionRefusal>)
    ensures
        ({
            let s = target_keys(editable@) + target_keys(verification@) + target_keys(readonly@);
            &&& r is Ok <==> all_consistent(s) && (s.len() > 0 || operation
                == WorkOperation::Investigate)
            &&& r matches Err(e) ==> e == (if !all_consistent(s) {
                SelectionRefusal::ConflictingTargetTransitions
            } else {
                SelectionRefusal::NoExactTargetBoundary
            })
            &&& r matches Ok(out) ==> exact_boundary(s, requested_keys(out@))
        }),
{
    let ghost s = target_keys(editable@) + target_keys(verification@) + target_keys(readonly@);
    let mut all: Vec<(Vec<char>, TargetTransition)> = Vec::new();
    assert(key_view(all@) =~= Seq::<(Seq<char>, TargetTransition)>::empty());
    push_keys(&mut all, editable);
    push_keys(&mut all, verification);
    push_keys(&mut all, readonly);
    assert(key_view(all@) =~= s);
    let resolved = resolve_boundary(&all);
    match resolved {
        None => Err(SelectionRefusal::ConflictingTargetTransitions),
        Some((keys, ts)) => {
            if keys.len() == 0 && operation != WorkOperation::Investigate {
                proof {
                    if s.len() > 0 {
                        assert(listed(views(keys@), s[0].0));
                        reveal(listed);
                    }
                }
                return Err(SelectionRefusal::NoExactTargetBoundary);
            }
            let mut out: Vec<RequestedTarget> = Vec::new();
            let mut k: usize = 0;
            while k < keys.len()
                invariant
                    k <= keys.len(),
                    keys.len() == ts.len(),
                    out.len() == k,
                    forall|j: int|
                        0 <= j < k ==> #[trigger] requested_keys(out@)[j] == (
                            views(keys@)[j],
                            ts@[j],
                        ),
                decreases keys.len() - k,
            {
                let reference = string_of(&keys[k]);
                let ghost before = out@;
                let entry = RequestedTarget { reference, transition: ts[k] };
                out.push(entry);
                proof {
                    assert(out@ == before.push(entry));
                    assert forall|j: int| 0 <= j < k + 1 implies #[trigger] requested_keys(out@)[j]
                        == (views(keys@)[j], ts@[j]) by {
                        if j == k {
                            assert(views(keys@)[j] == keys@[j]@);
                            assert(out@[j] == entry);
                        } else {
                            assert(out@[j] == before[j]);
                            assert(requested_keys(before)[j] == (views(keys@)[j], ts@[j]));
                        }
                    }
                }
                k = k + 1;
            }
            proof {
                if s.len() == 0 {
                    assert(views(keys@).len() == 0) by {
                        if views(keys@).len() > 0 {
                            assert(seen_before(s, views(keys@)[0], 0));
                            reveal(seen_before);
                        }
                    }
                }
                lemma_progress_boundary(s, views(keys@), ts@, requested_keys(out@));
            }
            Ok(out)
        },
    }
}

} // verus!
