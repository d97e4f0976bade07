//! Readiness: which axes a readiness level requires, what blocks them, and
//! how a report is summarised.
use vstd::prelude::*;
use crate::closures::strings_view;
use crate::text::owned;
use crate::trace::readiness_identity_matches;

verus! {

/// The readiness a workspace is assessed against.
#[derive(Debug, Clone, Copy, PartialEq, Eq, Structural)]
pub enum ReadinessLevel {
    Traceable,
    Seedable,
    WorkReady,
    Verifiable,
    ClosedLoop,
    /// A level that requires no axis.
    Unassessed,
}

/// A subject assessed on an axis.
#[derive(Debug, Clone)]
pub struct ReadinessSubject {
    pub id: String,
    pub scope_id: String,
    pub blockers: Vec<String>,
}

/// One readiness axis: how many subjects it requires and what blocks it.
#[derive(Debug, Clone)]
pub struct ReadinessAxis {
    pub required: usize,
    pub blockers: Vec<String>,
    pub subjects: Vec<ReadinessSubject>,
}

/// A readiness report.
#[derive(Debug, Clone)]
pub struct ReadinessReport {
    pub target: ReadinessLevel,
    pub inventory: ReadinessAxis,
    pub ownership: ReadinessAxis,
    pub seedability: ReadinessAxis,
    pub workability: ReadinessAxis,
    pub verification: ReadinessAxis,
    pub closed_loop: ReadinessAxis,
    pub execution_state: String,
}

/// A named axis of a readiness view.
#[derive(Debug, Clone)]
pub struct ReadinessAxisEntry {
    pub name: String,
    pub axis: ReadinessAxis,
}

/// Readiness as the Readiness page shows it.
#[derive(Debug, Clone)]
pub struct ReadinessView {
    pub target: ReadinessLevel,
    pub status: String,
    pub blocking_subjects: usize,
    /// The axes by name, in name order.
    pub axes: Vec<ReadinessAxisEntry>,
    pub blockers: Vec<String>,
    pub execution_state: String,
}

/// How readiness changes with an edit.
#[derive(Debug, Clone)]
pub struct ReadinessImpact {
    pub status: String,
    pub blocking_subjects: usize,
}

/// The axes in the order the levels build on them.
pub open spec fn axes_in_order(r: ReadinessReport) -> Seq<ReadinessAxis> {
    seq![r.inventory, r.ownership, r.seedability, r.workability, r.verification, r.closed_loop]
}

/// How many of the ordered axes a level requires.
pub open spec fn required_axis_count(level: ReadinessLevel) -> nat {
    match level {
        ReadinessLevel::Traceable => 2,
        ReadinessLevel::Seedable => 3,
        ReadinessLevel::WorkReady => 4,
        ReadinessLevel::Verifiable => 5,
        ReadinessLevel::ClosedLoop => 6,
        ReadinessLevel::Unassessed => 0,
    }
}

/// The blockers of the axes `axes`, in order.
pub open spec fn axes_blockers(axes: Seq<ReadinessAxis>) -> Seq<Seq<char>>
    decreases axes.len(),
{
    if axes.len() == 0 {
        Seq::empty()
    } else {
        axes_blockers(axes.drop_last()) + strings_view(axes.last().blockers@)
    }
}

/// The readiness status: ready when the required axes have subjects and no
/// blocker.
pub open spec fn readiness_status(required: Seq<ReadinessAxis>) -> Seq<char> {
    if !(exists|k: int| 0 <= k < required.len() && required[k].required > 0) {
        "Blocked"@
    } else if axes_blockers(required).len() == 0 {
        "Ready"@
    } else {
        "Blocked"@
    }
}

/// The axes by name, in name order.
pub open spec fn named_axes(r: ReadinessReport) -> Seq<(Seq<char>, ReadinessAxis)> {
    seq![
        ("closed_loop"@, r.closed_loop),
        ("inventory"@, r.inventory),
        ("ownership"@, r.ownership),
        ("seedability"@, r.seedability),
        ("verification"@, r.verification),
        ("workability"@, r.workability),
    ]
}

fn copy_strings(v: &Vec<String>) -> (r: Vec<String>)
    ensures
        strings_view(r@) == strings_view(v@),
{
    let mut r: Vec<String> = Vec::new();
    let mut i: usize = 0;
    while i < v.len()
        invariant
            i <= v.len(),
            r@.len() == i,
            forall|k: int| 0 <= k < i ==> #[trigger] r@[k]@ == v@[k]@,
        decreases v.len() - i,
    {
        r.push(owned(v[i].as_str()));
        i = i + 1;
    }
    assert(strings_view(r@) =~= strings_view(v@));
    r
}

/// The readiness view of a report: the blockers of the axes its target
/// level requires, and its status.
pub fn readiness_view(report: ReadinessReport) -> (r: ReadinessView)
    ensures
        ({
            let required = axes_in_order(report).take(required_axis_count(report.target) as int);
            &&& r.target == report.target
            &&& strings_view(r.blockers@) == axes_blockers(required)
            &&& r.blocking_subjects == axes_blockers(required).len()
            &&& r.status@ == readiness_status(required)
            &&& r.execution_state == report.execution_state
            &&& r.axes@.map_values(|e: ReadinessAxisEntry| (e.name@, e.axis)) == named_axes(report)
        }),
{
    let ghost ordered = axes_in_order(report);
    let n: usize = match report.target {
        ReadinessLevel::Traceable => 2,
        ReadinessLevel::Seedable => 3,
        ReadinessLevel::WorkReady => 4,
        ReadinessLevel::Verifiable => 5,
        ReadinessLevel::ClosedLoop => 6,
        ReadinessLevel::Unassessed => 0,
    };
    let ordered_refs: Vec<&ReadinessAxis> = vec![
        &report.inventory,
        &report.ownership,
        &report.seedability,
        &report.workability,
        &report.verification,
        &report.closed_loop,
    ];
    let mut blockers: Vec<String> = Vec::new();
    let mut has_subjects = false;
    let mut k: usize = 0;
    assert(ordered.take(0) =~= Seq::<ReadinessAxis>::empty());
    while k < n
        invariant
            k <= n <= 6,
            n == required_axis_count(report.target),
            ordered == axes_in_order(report),
            ordered_refs@.len() == 6,
            forall|j: int| 0 <= j < 6 ==> *#[trigger] ordered_refs@[j] == ordered[j],
            strings_view(blockers@) == axes_blockers(ordered.take(k as int)),
            has_subjects == exists|j: int| 0 <= j < k && ordered[j].required > 0,
        decreases n - k,
    {
        let axis = ordered_refs[k];
        let more = copy_strings(&axis.blockers);
        let ghost before = blockers@;
        let mut more_mut = more;
        blockers.append(&mut more_mut);
        proof {
            assert(ordered.take(k + 1).drop_last() =~= ordered.take(k as int));
            assert(ordered.take(k + 1).last() == *axis);
            assert(strings_view(blockers@) =~= strings_view(before) + strings_view(more@));
        }
        if axis.required > 0 {
            has_subjects = true;
        }
        k = k + 1;
    }
    let status = if !has_subjects {
        "Blocked"
    } else if blockers.len() == 0 {
        "Ready"
    } else {
        "Blocked"
    };
    let count = blockers.len();
    proof {
        let required = ordered.take(n as int);
        assert(has_subjects == exists|j: int| 0 <= j < required.len() && required[j].required > 0) by {
            if has_subjects {
                let j = choose|j: int| 0 <= j < n && ordered[j].required > 0;
                assert(required[j] == ordered[j]);
            }
            if exists|j: int| 0 <= j < required.len() && required[j].required > 0 {
                let j = choose|j: int| 0 <= j < required.len() && required[j].required > 0;
                assert(required[j] == ordered[j]);
            }
        }
        assert(strings_view(blockers@).len() == blockers@.len());
    }
    let ReadinessReport {
        target,
        inventory,
        ownership,
        seedability,
        workability,
        verification,
        closed_loop,
        execution_state,
    } = report;
    let axes = vec![
        ReadinessAxisEntry { name: owned("closed_loop"), axis: closed_loop },
        ReadinessAxisEntry { name: owned("inventory"), axis: inventory },
        ReadinessAxisEntry { name: owned("ownership"), axis: ownership },
        ReadinessAxisEntry { name: owned("seedability"), axis: seedability },
        ReadinessAxisEntry { name: owned("verification"), axis: verification },
        ReadinessAxisEntry { name: owned("workability"), axis: workability },
    ];
    proof {
        assert(axes@.map_values(|e: ReadinessAxisEntry| (e.name@, e.axis)) =~= named_axes(report));
    }
    ReadinessView {
        target,
        status: owned(status),
        blocking_subjects: count,
        axes,
        blockers,
        execution_state,
    }
}

/// The sum of the blockers of all six axes.
pub open spec fn total_blockers(r: ReadinessReport) -> nat {
    r.inventory.blockers@.len() + r.ownership.blockers@.len() + r.seedability.blockers@.len()
        + r.workability.blockers@.len() + r.verification.blockers@.len() + r.closed_loop.blockers@.len()
}

/// The readiness impact of a report: the blockers of all axes, and whether
/// there are none.
pub fn readiness_impact(report: &ReadinessReport) -> (r: ReadinessImpact)
    requires
        total_blockers(*report) <= usize::MAX,
    ensures
        r.blocking_subjects == total_blockers(*report),
        r.status@ == (if total_blockers(*report) == 0 {
            "ready"@
        } else {
            "blocked"@
        }),
{
    let blockers = report.inventory.blockers.len() + report.ownership.blockers.len()
        + report.seedability.blockers.len() + report.workability.blockers.len()
        + report.verification.blockers.len() + report.closed_loop.blockers.len();
    ReadinessImpact {
        status: owned(
            if blockers == 0 {
                "ready"
            } else {
                "blocked"
            },
        ),
        blocking_subjects: blockers,
    }
}

/// A readiness subject concerns the root item or the criterion when its
/// identity or its scope names either.
pub open spec fn subject_matches(s: ReadinessSubject, root_id: Seq<char>, criterion: Seq<char>) -> bool {
    crate::trace::spec_identity_matches(s.id@, root_id) || crate::trace::spec_identity_matches(
        s.id@,
        criterion,
    ) || crate::trace::spec_identity_matches(s.scope_id@, root_id)
        || crate::trace::spec_identity_matches(s.scope_id@, criterion)
}

/// Whether a readiness subject concerns the root item or the criterion.
pub fn readiness_subject_matches(subject: &ReadinessSubject, root_id: &str, criterion: &str) -> (r: bool)
    ensures
        r == subject_matches(*subject, root_id@, criterion@),
{
    readiness_identity_matches(subject.id.as_str(), root_id) || readiness_identity_matches(
        subject.id.as_str(),
        criterion,
    ) || readiness_identity_matches(subject.scope_id.as_str(), root_id)
        || readiness_identity_matches(subject.scope_id.as_str(), criterion)
}

/// The blockers of the subjects that concern the root item or the
/// criterion, in order.
pub open spec fn matching_blockers(
    subjects: Seq<ReadinessSubject>,
    root_id: Seq<char>,
    criterion: Seq<char>,
) -> Seq<Seq<char>>
    decreases subjects.len(),
{
    if subjects.len() == 0 {
        Seq::empty()
    } else {
        matching_blockers(subjects.drop_last(), root_id, criterion) + if subject_matches(
            subjects.last(),
            root_id,
            criterion,
        ) {
            strings_view(subjects.last().blockers@)
        } else {
            Seq::empty()
        }
    }
}

/// The subjects of the axes, axis by axis.
pub open spec fn axes_subjects(axes: Seq<ReadinessAxisEntry>) -> Seq<ReadinessSubject> {
    axes.map_values(|e: ReadinessAxisEntry| e.axis.subjects@).flatten()
}

proof fn lemma_matching_blockers_append(
    a: Seq<ReadinessSubject>,
    b: Seq<ReadinessSubject>,
    root_id: Seq<char>,
    criterion: Seq<char>,
)
    ensures
        matching_blockers(a + b, root_id, criterion) == matching_blockers(a, root_id, criterion)
            + matching_blockers(b, root_id, criterion),
    decreases b.len(),
{
    if b.len() == 0 {
        assert(a + b =~= a);
    } else {
        lemma_matching_blockers_append(a, b.drop_last(), root_id, criterion);
        assert((a + b).drop_last() =~= a + b.drop_last());
        assert((a + b).last() == b.last());
    }
}

/// The readiness blockers that concern a criterion's closure: the blockers
/// of every subject, on every axis, whose identity or scope names the root
/// item or the criterion.
pub fn closure_readiness_blockers(view: &ReadinessView, root_id: &str, criterion: &str) -> (r: Vec<String>)
    ensures
        strings_view(r@) == matching_blockers(axes_subjects(view.axes@), root_id@, criterion@),
{
    let ghost parts = view.axes@.map_values(|e: ReadinessAxisEntry| e.axis.subjects@);
    let mut r: Vec<String> = Vec::new();
    let mut a: usize = 0;
    assert(parts.take(0).flatten() =~= Seq::empty());
    while a < view.axes.len()
        invariant
            a <= view.axes.len(),
            parts == view.axes@.map_values(|e: ReadinessAxisEntry| e.axis.subjects@),
            strings_view(r@) == matching_blockers(parts.take(a as int).flatten(), root_id@, criterion@),
        decreases view.axes.len() - a,
    {
        let subjects = &view.axes[a].axis.subjects;
        let ghost before_flat = parts.take(a as int).flatten();
        let ghost start = strings_view(r@);
        let mut k: usize = 0;
        assert(subjects@.take(0) =~= Seq::<ReadinessSubject>::empty());
        while k < subjects.len()
            invariant
                k <= subjects.len(),
                strings_view(r@) == start + matching_blockers(subjects@.take(k as int), root_id@, criterion@),
            decreases subjects.len() - k,
        {
            let s = &subjects[k];
            proof {
                assert(subjects@.take(k + 1).drop_last() =~= subjects@.take(k as int));
                assert(subjects@.take(k + 1).last() == *s);
            }
            if readiness_subject_matches(s, root_id, criterion) {
                let more = copy_strings(&s.blockers);
                let ghost before = r@;
                let mut more_mut = more;
                r.append(&mut more_mut);
                proof {
                    assert(strings_view(r@) =~= strings_view(before) + strings_view(more@));
                }
            }
            k = k + 1;
        }
        proof {
            assert(subjects@.take(k as int) =~= subjects@);
            assert(parts[a as int] == subjects@);
            assert(parts.take(a + 1) =~= parts.take(a as int).push(parts[a as int]));
            parts.take(a as int).lemma_flatten_push(parts[a as int]);
            lemma_matching_blockers_append(before_flat, subjects@, root_id@, criterion@);
        }
        a = a + 1;
    }
    assert(parts.take(a as int) =~= parts);
    r
}

// ---------------------------------------------------------------------------
// Laws of readiness

/// The blockers a readiness view reports for a report.
pub open spec fn view_blockers(report: ReadinessReport) -> Seq<Seq<char>> {
    axes_blockers(axes_in_order(report).take(required_axis_count(report.target) as int))
}

/// Every blocker of each of the given axes is among their blockers.
proof fn lemma_axes_blockers_hold(axes: Seq<ReadinessAxis>, k: int, b: Seq<char>)
    requires
        0 <= k < axes.len(),
        strings_view(axes[k].blockers@).contains(b),
    ensures
        axes_blockers(axes).contains(b),
    decreases axes.len(),
{
    let rest = axes_blockers(axes.drop_last());
    let own = strings_view(axes.last().blockers@);
    if k < axes.len() - 1 {
        assert(axes.drop_last()[k] == axes[k]);
        lemma_axes_blockers_hold(axes.drop_last(), k, b);
        let j = choose|j: int| 0 <= j < rest.len() && rest[j] == b;
        assert((rest + own)[j] == b);
    } else {
        let j = choose|j: int| 0 <= j < own.len() && own[j] == b;
        assert((rest + own)[rest.len() + j] == b);
    }
}

/// Each level requires the axes of the levels below it and the axis it is
/// named for: the required axes grow strictly from Traceable to ClosedLoop,
/// and every blocker of a required axis is among the view's blockers. In
/// particular a Verifiable or ClosedLoop report is blocked by every
/// blocker of its verification axis, a WorkReady or higher report by every
/// blocker of its workability axis, a Seedable or higher report by its
/// seedability blockers, a ClosedLoop report by its closed-loop blockers,
/// and every assessed report by its inventory and ownership blockers.
pub proof fn lemma_levels_require_their_axes(report: ReadinessReport, b: Seq<char>)
    ensures
        required_axis_count(ReadinessLevel::Traceable) < required_axis_count(ReadinessLevel::Seedable),
        required_axis_count(ReadinessLevel::Seedable) < required_axis_count(ReadinessLevel::WorkReady),
        required_axis_count(ReadinessLevel::WorkReady) < required_axis_count(ReadinessLevel::Verifiable),
        required_axis_count(ReadinessLevel::Verifiable) < required_axis_count(ReadinessLevel::ClosedLoop),
        report.target != ReadinessLevel::Unassessed && (strings_view(report.inventory.blockers@).contains(b)
            || strings_view(report.ownership.blockers@).contains(b)) ==> view_blockers(report).contains(b),
        (report.target == ReadinessLevel::Seedable || report.target == ReadinessLevel::WorkReady || report.target
            == ReadinessLevel::Verifiable || report.target == ReadinessLevel::ClosedLoop) && strings_view(
            report.seedability.blockers@,
        ).contains(b) ==> view_blockers(report).contains(b),
        (report.target == ReadinessLevel::WorkReady || report.target == ReadinessLevel::Verifiable
            || report.target == ReadinessLevel::ClosedLoop) && strings_view(report.workability.blockers@).contains(b)
            ==> view_blockers(report).contains(b),
        (report.target == ReadinessLevel::Verifiable || report.target == ReadinessLevel::ClosedLoop) && strings_view(
            report.verification.blockers@,
        ).contains(b) ==> view_blockers(report).contains(b),
        report.target == ReadinessLevel::ClosedLoop && strings_view(report.closed_loop.blockers@).contains(b)
            ==> view_blockers(report).contains(b),
{
    let req = axes_in_order(report).take(required_axis_count(report.target) as int);
    let n = required_axis_count(report.target);
    assert forall|k: int| 0 <= k < n && n <= 6 && #[trigger] strings_view(axes_in_order(report)[k].blockers@).contains(b)
        implies view_blockers(report).contains(b) by {
        assert(req[k] == axes_in_order(report)[k]);
        lemma_axes_blockers_hold(req, k, b);
    }
    assert(axes_in_order(report)[0] == report.inventory);
    assert(axes_in_order(report)[1] == report.ownership);
    assert(axes_in_order(report)[2] == report.seedability);
    assert(axes_in_order(report)[3] == report.workability);
    assert(axes_in_order(report)[4] == report.verification);
    assert(axes_in_order(report)[5] == report.closed_loop);
}

/// A readiness view is ready exactly when the axes its level requires
/// have subjects and no blocker; an unassessed report is never ready.
pub proof fn lemma_ready_means_unblocked(report: ReadinessReport)
    ensures
        readiness_status(axes_in_order(report).take(required_axis_count(report.target) as int)) == "Ready"@
            <==> (view_blockers(report).len() == 0 && exists|k: int|
            0 <= k < required_axis_count(report.target) && #[trigger] axes_in_order(report)[k].required > 0),
        report.target == ReadinessLevel::Unassessed ==> readiness_status(
            axes_in_order(report).take(required_axis_count(report.target) as int),
        ) == "Blocked"@,
{
    reveal_strlit("Ready");
    reveal_strlit("Blocked");
    assert("Ready"@.len() != "Blocked"@.len());
    let req = axes_in_order(report).take(required_axis_count(report.target) as int);
    assert(required_axis_count(report.target) <= 6);
    assert forall|k: int| 0 <= k < required_axis_count(report.target) implies req[k] == axes_in_order(report)[k] by {}
    if exists|k: int| 0 <= k < required_axis_count(report.target) && #[trigger] axes_in_order(report)[k].required > 0 {
        let k = choose|k: int| 0 <= k < required_axis_count(report.target) && #[trigger] axes_in_order(report)[k].required > 0;
        assert(req[k].required > 0);
    }
    if exists|k: int| 0 <= k < req.len() && req[k].required > 0 {
        let k = choose|k: int| 0 <= k < req.len() && req[k].required > 0;
        assert(axes_in_order(report)[k].required > 0);
    }
}

} // verus!
