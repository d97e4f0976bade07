//! Which specification items own the files a branch changed, and whether
//! every changed artifact is owned.
use vstd::prelude::*;
use crate::catalog::ItemSummary;
use crate::changes::{ChangeStatus, ChangedFile};
use crate::closures::{copy_strings, strings_view};
use crate::completeness::contains_string;
use crate::capabilities::sorted_set_of;
use crate::impact::sorted_as;
use crate::anchors::strs;
use crate::text::owned;
use vstd::seq_lib::seq_to_set_distributes_over_add;

verus! {

/// The exact targets the index lists for one repository path.
#[derive(Debug, Clone)]
pub struct PathTargets {
    pub path: String,
    pub targets: Vec<String>,
}

/// An artifact unit of the index: the file that holds it and its identity.
#[derive(Debug, Clone)]
pub struct ArtifactUnit {
    pub path: String,
    pub identity: String,
}

/// A target reference and the artifact identity it resolves to.
#[derive(Debug, Clone)]
pub struct TargetArtifact {
    pub reference: String,
    pub identity: String,
}

/// An owner of an artifact: the identity it owns, the item of the owning
/// binding, and the binding written out as an anchor.
#[derive(Debug, Clone)]
pub struct ArtifactOwner {
    pub identity: String,
    pub item: String,
    pub binding: String,
}

/// What the branch scope reads from the specification index.
#[derive(Debug, Clone)]
pub struct BranchIndex {
    pub path_targets: Vec<PathTargets>,
    pub artifact_units: Vec<ArtifactUnit>,
    pub target_artifacts: Vec<TargetArtifact>,
    pub artifact_owners: Vec<ArtifactOwner>,
}

/// One changed file and what the index says of it.
#[derive(Debug, Clone)]
pub struct BranchChangedTargetView {
    pub path: String,
    pub status: ChangeStatus,
    pub owners: Vec<String>,
    pub anchors: Vec<String>,
    pub artifact_identities: Vec<String>,
    pub unresolved_reason: Option<String>,
    pub plan_inclusion_reason: Option<String>,
}

/// The changed files of a branch, split by whether an item owns them.
#[derive(Debug, Clone)]
pub struct BranchScopeView {
    pub range: String,
    pub state: String,
    pub reason: Option<String>,
    pub changed: Vec<BranchChangedTargetView>,
    pub owned: Vec<BranchChangedTargetView>,
    pub unowned: Vec<BranchChangedTargetView>,
    pub affected_items: Vec<ItemSummary>,
}

pub open spec fn opt_view(o: Option<String>) -> Option<Seq<char>> {
    match o {
        Some(s) => Some(s@),
        None => None,
    }
}

/// A changed entry as a value: path, status, owners, anchors, artifact
/// identities, unresolved reason, plan inclusion reason.
pub open spec fn entry_view(e: BranchChangedTargetView) -> (
    Seq<char>,
    ChangeStatus,
    Seq<Seq<char>>,
    Seq<Seq<char>>,
    Seq<Seq<char>>,
    Option<Seq<char>>,
    Option<Seq<char>>,
) {
    (
        e.path@,
        e.status,
        strs(e.owners@),
        strs(e.anchors@),
        strs(e.artifact_identities@),
        opt_view(e.unresolved_reason),
        opt_view(e.plan_inclusion_reason),
    )
}

pub open spec fn entry_views(es: Seq<BranchChangedTargetView>) -> Seq<
    (
        Seq<char>,
        ChangeStatus,
        Seq<Seq<char>>,
        Seq<Seq<char>>,
        Seq<Seq<char>>,
        Option<Seq<char>>,
        Option<Seq<char>>,
    ),
> {
    es.map_values(|e: BranchChangedTargetView| entry_view(e))
}

/// The path a changed file is shown under: its new path, else its old
/// path, else nothing.
pub open spec fn file_path(f: ChangedFile) -> Seq<char> {
    match f.new_path {
        Some(p) => p@,
        None => match f.old_path {
            Some(p) => p@,
            None => Seq::empty(),
        },
    }
}

/// The identities of the artifact units stored at `path`, in index order.
pub open spec fn unit_identities(units: Seq<ArtifactUnit>, path: Seq<char>) -> Seq<Seq<char>>
    decreases units.len(),
{
    if units.len() == 0 {
        Seq::empty()
    } else {
        let rest = unit_identities(units.drop_last(), path);
        if units.last().path@ == path {
            rest.push(units.last().identity@)
        } else {
            rest
        }
    }
}

/// The targets listed for `path`.
pub open spec fn listed_targets(pt: Seq<PathTargets>, path: Seq<char>) -> Seq<Seq<char>>
    decreases pt.len(),
{
    if pt.len() == 0 {
        Seq::empty()
    } else {
        let rest = listed_targets(pt.drop_last(), path);
        if pt.last().path@ == path {
            rest + strs(pt.last().targets@)
        } else {
            rest
        }
    }
}

/// The targets whose artifact is one of `ids`.
pub open spec fn linked_targets(ta: Seq<TargetArtifact>, ids: Seq<Seq<char>>) -> Seq<Seq<char>>
    decreases ta.len(),
{
    if ta.len() == 0 {
        Seq::empty()
    } else {
        let rest = linked_targets(ta.drop_last(), ids);
        if ids.contains(ta.last().identity@) {
            rest.push(ta.last().reference@)
        } else {
            rest
        }
    }
}

/// The owners of the artifacts `ids`: the owning item when `items`, else
/// the owning binding.
pub open spec fn owners_of(ow: Seq<ArtifactOwner>, ids: Seq<Seq<char>>, items: bool) -> Seq<Seq<char>>
    decreases ow.len(),
{
    if ow.len() == 0 {
        Seq::empty()
    } else {
        let rest = owners_of(ow.drop_last(), ids, items);
        if ids.contains(ow.last().identity@) {
            rest.push(if items { ow.last().item@ } else { ow.last().binding@ })
        } else {
            rest
        }
    }
}

/// The exact targets of a changed file at `path` with artifacts `ids`.
pub open spec fn file_targets(ix: BranchIndex, path: Seq<char>, ids: Seq<Seq<char>>) -> Seq<Seq<char>> {
    listed_targets(ix.path_targets@, path) + linked_targets(ix.target_artifacts@, ids)
}

pub open spec fn no_target_reason() -> Seq<char> {
    "no active artifact identity or exact target"@
}

pub open spec fn inclusion_reason() -> Seq<char> {
    "canonical artifact identity and ownership relation is present"@
}

pub open spec fn unowned_reason() -> Seq<char> {
    "changed artifacts include unowned or unresolved units"@
}

/// What the branch scope shows of one changed file.
pub open spec fn entry_of(ix: BranchIndex, f: ChangedFile, e: BranchChangedTargetView) -> bool {
    let path = file_path(f);
    let ids = unit_identities(ix.artifact_units@, path);
    let targets = file_targets(ix, path, ids);
    let bindings = owners_of(ix.artifact_owners@, ids, false);
    &&& e.path@ == path
    &&& e.status == f.status
    &&& strs(e.artifact_identities@) == ids
    &&& sorted_as(e.owners@, owners_of(ix.artifact_owners@, ids, true).to_set())
    &&& sorted_as(e.anchors@, targets.to_set() + bindings.to_set())
    &&& opt_view(e.unresolved_reason) == if ids.len() == 0 && targets.len() == 0 {
        Some(no_target_reason())
    } else {
        None
    }
    &&& opt_view(e.plan_inclusion_reason) == if targets.len() > 0 || bindings.len() > 0 {
        Some(inclusion_reason())
    } else {
        None
    }
}

/// The entries among `es` that have an owner when `with_owner`, else those
/// that have none.
pub open spec fn by_owner(
    es: Seq<(
        Seq<char>,
        ChangeStatus,
        Seq<Seq<char>>,
        Seq<Seq<char>>,
        Seq<Seq<char>>,
        Option<Seq<char>>,
        Option<Seq<char>>,
    )>,
    with_owner: bool,
) -> Seq<
    (
        Seq<char>,
        ChangeStatus,
        Seq<Seq<char>>,
        Seq<Seq<char>>,
        Seq<Seq<char>>,
        Option<Seq<char>>,
        Option<Seq<char>>,
    ),
>
    decreases es.len(),
{
    if es.len() == 0 {
        Seq::empty()
    } else {
        let rest = by_owner(es.drop_last(), with_owner);
        if (es.last().2.len() > 0) == with_owner {
            rest.push(es.last())
        } else {
            rest
        }
    }
}

/// The items owning a changed file of `files`.
pub open spec fn affected_ids(ix: BranchIndex, files: Seq<ChangedFile>) -> Set<Seq<char>> {
    Set::new(
        |s: Seq<char>|
            exists|i: int|
                0 <= i < files.len() && #[trigger] owners_of(
                    ix.artifact_owners@,
                    unit_identities(ix.artifact_units@, file_path(files[i])),
                    true,
                ).contains(s),
    )
}

/// The items of `items` whose id is in `ids`, in order.
pub open spec fn kept_items(items: Seq<ItemSummary>, ids: Set<Seq<char>>) -> Seq<ItemSummary>
    decreases items.len(),
{
    if items.len() == 0 {
        Seq::empty()
    } else {
        let rest = kept_items(items.drop_last(), ids);
        if ids.contains(items.last().id@) {
            rest.push(items.last())
        } else {
            rest
        }
    }
}

// ---------------------------------------------------------------------------
// Reading the index for one file

fn unit_identities_exec(units: &Vec<ArtifactUnit>, path: &str) -> (r: Vec<String>)
    ensures
        strs(r@) == unit_identities(units@, path@),
{
    let mut r: Vec<String> = Vec::new();
    let mut k: usize = 0;
    while k < units.len()
        invariant
            k <= units.len(),
            strs(r@) == unit_identities(units@.take(k as int), path@),
        decreases units.len() - k,
    {
        proof {
            assert(units@.take(k + 1).drop_last() =~= units@.take(k as int));
        }
        if crate::text::str_eq(units[k].path.as_str(), path) {
            r.push(owned(units[k].identity.as_str()));
        }
        proof {
            assert(strs(r@) =~= unit_identities(units@.take(k + 1), path@));
        }
        k = k + 1;
    }
    proof {
        assert(units@.take(units@.len() as int) =~= units@);
    }
    r
}

fn listed_targets_exec(pt: &Vec<PathTargets>, path: &str, out: &mut Vec<String>)
    ensures
        strs(final(out)@) == strs(old(out)@) + listed_targets(pt@, path@),
{
    let ghost start = strs(out@);
    let mut k: usize = 0;
    proof {
        assert(strs(out@) =~= start + listed_targets(pt@.take(0), path@));
    }
    while k < pt.len()
        invariant
            k <= pt.len(),
            strs(out@) == start + listed_targets(pt@.take(k as int), path@),
        decreases pt.len() - k,
    {
        proof {
            assert(pt@.take(k + 1).drop_last() =~= pt@.take(k as int));
        }
        if crate::text::str_eq(pt[k].path.as_str(), path) {
            let ts = &pt[k].targets;
            let ghost mid = strs(out@);
            let mut j: usize = 0;
            while j < ts.len()
                invariant
                    j <= ts.len(),
                    strs(out@) == mid + strs(ts@).take(j as int),
                decreases ts.len() - j,
            {
                let ghost before = strs(out@);
                out.push(owned(ts[j].as_str()));
                proof {
                    assert(strs(out@) =~= before.push(ts@[j as int]@));
                    assert(strs(ts@).take(j + 1) =~= strs(ts@).take(j as int).push(ts@[j as int]@));
                    assert(strs(out@) =~= mid + strs(ts@).take(j + 1));
                }
                j = j + 1;
            }
            proof {
                assert(strs(ts@).take(ts@.len() as int) =~= strs(ts@));
                assert(strs(out@) =~= start + listed_targets(pt@.take(k + 1), path@));
            }
        } else {
            proof {
                assert(strs(out@) =~= start + listed_targets(pt@.take(k + 1), path@));
            }
        }
        k = k + 1;
    }
    proof {
        assert(pt@.take(pt@.len() as int) =~= pt@);
    }
}

fn linked_targets_exec(ta: &Vec<TargetArtifact>, ids: &Vec<String>, out: &mut Vec<String>)
    ensures
        strs(final(out)@) == strs(old(out)@) + linked_targets(ta@, strs(ids@)),
{
    let ghost start = strs(out@);
    let mut k: usize = 0;
    proof {
        assert(strs(out@) =~= start + linked_targets(ta@.take(0), strs(ids@)));
    }
    while k < ta.len()
        invariant
            k <= ta.len(),
            strs(out@) == start + linked_targets(ta@.take(k as int), strs(ids@)),
        decreases ta.len() - k,
    {
        proof {
            assert(ta@.take(k + 1).drop_last() =~= ta@.take(k as int));
            assert(ta@.take(k + 1).last() == ta@[k as int]);
        }
        let ghost before = strs(out@);
        if contains_string(ids, ta[k].identity.as_str()) {
            out.push(owned(ta[k].reference.as_str()));
            proof {
                assert(strs(out@) =~= before.push(ta@[k as int].reference@));
            }
        }
        proof {
            assert(strs(out@) =~= start + linked_targets(ta@.take(k + 1), strs(ids@)));
        }
        k = k + 1;
    }
    proof {
        assert(ta@.take(ta@.len() as int) =~= ta@);
    }
}

fn owners_exec(ow: &Vec<ArtifactOwner>, ids: &Vec<String>, items: bool, out: &mut Vec<String>)
    ensures
        strs(final(out)@) == strs(old(out)@) + owners_of(ow@, strs(ids@), items),
{
    let ghost start = strs(out@);
    let mut k: usize = 0;
    proof {
        assert(strs(out@) =~= start + owners_of(ow@.take(0), strs(ids@), items));
    }
    while k < ow.len()
        invariant
            k <= ow.len(),
            strs(out@) == start + owners_of(ow@.take(k as int), strs(ids@), items),
        decreases ow.len() - k,
    {
        proof {
            assert(ow@.take(k + 1).drop_last() =~= ow@.take(k as int));
            assert(ow@.take(k + 1).last() == ow@[k as int]);
        }
        let ghost before = strs(out@);
        if contains_string(ids, ow[k].identity.as_str()) {
            if items {
                out.push(owned(ow[k].item.as_str()));
                proof {
                    assert(strs(out@) =~= before.push(ow@[k as int].item@));
                }
            } else {
                out.push(owned(ow[k].binding.as_str()));
                proof {
                    assert(strs(out@) =~= before.push(ow@[k as int].binding@));
                }
            }
        }
        proof {
            assert(strs(out@) =~= start + owners_of(ow@.take(k + 1), strs(ids@), items));
        }
        k = k + 1;
    }
    proof {
        assert(ow@.take(ow@.len() as int) =~= ow@);
    }
}

fn copy_opt(o: &Option<String>) -> (r: Option<String>)
    ensures
        opt_view(r) == opt_view(*o),
{
    match o {
        Some(s) => Some(owned(s.as_str())),
        None => None,
    }
}

fn copy_entry(e: &BranchChangedTargetView) -> (r: BranchChangedTargetView)
    ensures
        entry_view(r) == entry_view(*e),
{
    let owners = copy_strings(&e.owners);
    let anchors = copy_strings(&e.anchors);
    let ids = copy_strings(&e.artifact_identities);
    let r = BranchChangedTargetView {
        path: owned(e.path.as_str()),
        status: e.status,
        owners,
        anchors,
        artifact_identities: ids,
        unresolved_reason: copy_opt(&e.unresolved_reason),
        plan_inclusion_reason: copy_opt(&e.plan_inclusion_reason),
    };
    proof {
        assert(strs(r.owners@) =~= strings_view(e.owners@));
        assert(strs(r.anchors@) =~= strings_view(e.anchors@));
        assert(strs(r.artifact_identities@) =~= strings_view(e.artifact_identities@));
    }
    r
}

/// What the branch scope shows of the changed file `f`.
fn changed_entry(ix: &BranchIndex, f: &ChangedFile) -> (r: BranchChangedTargetView)
    ensures
        entry_of(*ix, *f, r),
{
    let path: String = match &f.new_path {
        Some(p) => owned(p.as_str()),
        None => match &f.old_path {
            Some(p) => owned(p.as_str()),
            None => String::new(),
        },
    };
    let ids = unit_identities_exec(&ix.artifact_units, path.as_str());
    let mut targets: Vec<String> = Vec::new();
    listed_targets_exec(&ix.path_targets, path.as_str(), &mut targets);
    linked_targets_exec(&ix.target_artifacts, &ids, &mut targets);
    let mut items: Vec<String> = Vec::new();
    owners_exec(&ix.artifact_owners, &ids, true, &mut items);
    let mut bindings: Vec<String> = Vec::new();
    owners_exec(&ix.artifact_owners, &ids, false, &mut bindings);
    let mut all = copy_strings(&targets);
    proof {
        assert(strs(all@) =~= strings_view(targets@));
    }
    owners_exec(&ix.artifact_owners, &ids, false, &mut all);
    let owners = sorted_set_of(&items).to_vec();
    let anchors = sorted_set_of(&all).to_vec();
    let ghost t = file_targets(*ix, path@, strs(ids@));
    let ghost b = owners_of(ix.artifact_owners@, strs(ids@), false);
    proof {
        assert(strs(targets@) =~= t);
        assert(strs(all@) =~= t + b);
        seq_to_set_distributes_over_add(t, b);
        assert(strs(owners@) =~= owners@.map_values(|s: String| s@));
        assert(strs(anchors@) =~= anchors@.map_values(|s: String| s@));
    }
    let unresolved_reason = if ids.len() == 0 && targets.len() == 0 {
        Some(owned("no active artifact identity or exact target"))
    } else {
        None
    };
    let plan_inclusion_reason = if targets.len() > 0 || bindings.len() > 0 {
        Some(owned("canonical artifact identity and ownership relation is present"))
    } else {
        None
    };
    BranchChangedTargetView {
        path,
        status: f.status,
        owners,
        anchors,
        artifact_identities: ids,
        unresolved_reason,
        plan_inclusion_reason,
    }
}

/// The items of `affected` taken from `items`, in order.
fn keep_items(items: Vec<ItemSummary>, affected: &crate::sorted::SortedStrings) -> (r: Vec<ItemSummary>)
    ensures
        r@ == kept_items(items@, affected@.to_set()),
{
    let ghost orig = items@;
    let mut rest = items;
    assert(orig.len() == rest.len());
    let mut out: Vec<ItemSummary> = Vec::new();
    let mut k: usize = 0;
    while rest.len() > 0
        invariant
            k <= orig.len(),
            rest@ == orig.skip(k as int),
            rest@.len() == orig.len() - k,
            orig.len() <= usize::MAX,
            out@ == kept_items(orig.take(k as int), affected@.to_set()),
        decreases rest.len(),
    {
        let item = rest.remove(0);
        proof {
            assert(orig.take(k + 1).drop_last() =~= orig.take(k as int));
            assert(item == orig[k as int]);
            assert(orig.take(k + 1).last() == orig[k as int]);
            assert(rest@ =~= orig.skip(k + 1));
        }
        if affected.contains(item.id.as_str()) {
            out.push(item);
        }
        k = k + 1;
    }
    proof {
        assert(orig.skip(k as int).len() == 0);
        assert(orig.take(k as int) =~= orig);
    }
    out
}

impl BranchScopeView {
    /// A scope that does not apply, for `reason`.
    pub fn not_applicable(reason: String) -> (r: BranchScopeView)
        ensures
            r.range@ == Seq::<char>::empty(),
            r.state@ == "not_applicable"@,
            opt_view(r.reason) == Some(reason@),
            r.changed@.len() == 0,
            r.owned@.len() == 0,
            r.unowned@.len() == 0,
            r.affected_items@.len() == 0,
    {
        BranchScopeView {
            range: String::new(),
            state: owned("not_applicable"),
            reason: Some(reason),
            changed: Vec::new(),
            owned: Vec::new(),
            unowned: Vec::new(),
            affected_items: Vec::new(),
        }
    }
}

/// The scope of a branch over `range`: for each changed file its exact
/// targets, owners and anchors; the files split by whether an item owns
/// them; and the items that own a changed file. The scope is ready only
/// when every changed file has an owner.
pub fn branch_scope_view(
    index: &BranchIndex,
    items: Vec<ItemSummary>,
    range: String,
    files: &Vec<ChangedFile>,
) -> (r: BranchScopeView)
    ensures
        r.range@ == range@,
        r.changed@.len() == files@.len(),
        forall|i: int| 0 <= i < files@.len() ==> entry_of(*index, files@[i], #[trigger] r.changed@[i]),
        entry_views(r.owned@) == by_owner(entry_views(r.changed@), true),
        entry_views(r.unowned@) == by_owner(entry_views(r.changed@), false),
        r.state@ == (if r.unowned@.len() == 0 { "ready"@ } else { "blocked"@ }),
        opt_view(r.reason) == (if r.unowned@.len() == 0 { None } else { Some(unowned_reason()) }),
        r.affected_items@ == kept_items(items@, affected_ids(*index, files@)),
{
    let mut changed: Vec<BranchChangedTargetView> = Vec::new();
    let mut affected = crate::sorted::SortedStrings::new();
    let mut i: usize = 0;
    proof {
        assert(affected@.to_set() =~= Set::<Seq<char>>::empty());
    }
    while i < files.len()
        invariant
            i <= files.len(),
            changed@.len() == i,
            forall|q: int| 0 <= q < i ==> entry_of(*index, files@[q], #[trigger] changed@[q]),
            affected@.to_set() == Set::new(
                |s: Seq<char>|
                    exists|q: int|
                        0 <= q < i && #[trigger] owners_of(
                            index.artifact_owners@,
                            unit_identities(index.artifact_units@, file_path(files@[q])),
                            true,
                        ).contains(s),
            ),
        decreases files.len() - i,
    {
        let e = changed_entry(index, &files[i]);
        let ghost before = affected@.to_set();
        let ghost own = owners_of(
            index.artifact_owners@,
            unit_identities(index.artifact_units@, file_path(files@[i as int])),
            true,
        );
        let mut j: usize = 0;
        while j < e.owners.len()
            invariant
                j <= e.owners.len(),
                affected@.to_set() == before + strs(e.owners@).take(j as int).to_set(),
            decreases e.owners.len() - j,
        {
            affected.insert(e.owners[j].as_str());
            proof {
                assert(strs(e.owners@).take(j + 1) =~= strs(e.owners@).take(j as int).push(e.owners@[j as int]@));
                strs(e.owners@).take(j as int).lemma_push_to_set_commute(e.owners@[j as int]@);
                assert(affected@.to_set() =~= before + strs(e.owners@).take(j + 1).to_set());
            }
            j = j + 1;
        }
        proof {
            assert(strs(e.owners@).take(e.owners@.len() as int) =~= strs(e.owners@));
            assert(strs(e.owners@).to_set() == own.to_set());
            assert forall|s: Seq<char>| #[trigger] affected@.to_set().contains(s) == (exists|q: int|
                0 <= q < i + 1 && #[trigger] owners_of(
                    index.artifact_owners@,
                    unit_identities(index.artifact_units@, file_path(files@[q])),
                    true,
                ).contains(s)) by {
                assert(own.to_set().contains(s) == own.contains(s));
            }
        }
        changed.push(e);
        i = i + 1;
    }
    let mut owned_entries: Vec<BranchChangedTargetView> = Vec::new();
    let mut unowned_entries: Vec<BranchChangedTargetView> = Vec::new();
    let mut k: usize = 0;
    while k < changed.len()
        invariant
            k <= changed.len(),
            entry_views(owned_entries@) == by_owner(entry_views(changed@).take(k as int), true),
            entry_views(unowned_entries@) == by_owner(entry_views(changed@).take(k as int), false),
        decreases changed.len() - k,
    {
        let ghost ev = entry_views(changed@);
        proof {
            assert(ev.take(k + 1).drop_last() =~= ev.take(k as int));
            assert(ev.take(k + 1).last() == entry_view(changed@[k as int]));
        }
        let c = copy_entry(&changed[k]);
        let ghost before_o = entry_views(owned_entries@);
        let ghost before_u = entry_views(unowned_entries@);
        if changed[k].owners.len() > 0 {
            owned_entries.push(c);
            proof {
                assert(entry_views(owned_entries@) =~= before_o.push(entry_view(changed@[k as int])));
            }
        } else {
            unowned_entries.push(c);
            proof {
                assert(entry_views(unowned_entries@) =~= before_u.push(entry_view(changed@[k as int])));
            }
        }
        k = k + 1;
    }
    proof {
        assert(entry_views(changed@).take(changed@.len() as int) =~= entry_views(changed@));
        assert(affected@.to_set() =~= affected_ids(*index, files@));
    }
    let affected_items = keep_items(items, &affected);
    let blocked = unowned_entries.len() > 0;
    BranchScopeView {
        range,
        state: if blocked { owned("blocked") } else { owned("ready") },
        reason: if blocked { Some(owned("changed artifacts include unowned or unresolved units")) } else { None },
        changed,
        owned: owned_entries,
        unowned: unowned_entries,
        affected_items,
    }
}

/// The files a diff view shows: each changed file's path (see
/// `file_path`) with its status, leaving out files with no path.
pub open spec fn diff_entries(files: Seq<ChangedFile>) -> Seq<(Seq<char>, ChangeStatus)>
    decreases files.len(),
{
    if files.len() == 0 {
        Seq::empty()
    } else {
        let rest = diff_entries(files.drop_last());
        let p = file_path(files.last());
        if p.len() == 0 {
            rest
        } else {
            rest.push((p, files.last().status))
        }
    }
}

/// The paths and statuses a diff view asks Git for, in order.
pub fn diff_paths(files: &Vec<ChangedFile>) -> (r: Vec<(String, ChangeStatus)>)
    ensures
        r@.map_values(|e: (String, ChangeStatus)| (e.0@, e.1)) == diff_entries(files@),
{
    let mut out: Vec<(String, ChangeStatus)> = Vec::new();
    let mut k: usize = 0;
    while k < files.len()
        invariant
            k <= files.len(),
            out@.map_values(|e: (String, ChangeStatus)| (e.0@, e.1)) == diff_entries(files@.take(k as int)),
        decreases files.len() - k,
    {
        proof {
            assert(files@.take(k + 1).drop_last() =~= files@.take(k as int));
            assert(files@.take(k + 1).last() == files@[k as int]);
        }
        let f = &files[k];
        let path: String = match &f.new_path {
            Some(p) => owned(p.as_str()),
            None => match &f.old_path {
                Some(p) => owned(p.as_str()),
                None => String::new(),
            },
        };
        let ghost before = out@.map_values(|e: (String, ChangeStatus)| (e.0@, e.1));
        if crate::text::chars_of(path.as_str()).len() > 0 {
            let ghost pv = path@;
            out.push((path, f.status));
            proof {
                assert(out@.map_values(|e: (String, ChangeStatus)| (e.0@, e.1)) =~= before.push((pv, files@[k as int].status)));
            }
        }
        k = k + 1;
    }
    proof {
        assert(files@.take(files@.len() as int) =~= files@);
    }
    out
}

} // verus!
