//! What a specification edit touches: the anchors it changes, the items it
//! affects, and the targets and ownership scopes behind them.
use vstd::prelude::*;
use crate::anchors::AnchorRelation;
use crate::capabilities::{item_of_anchor, item_part, strs};
use crate::sorted::SortedStrings;
use crate::text::{append, owned, str_eq};

verus! {

/// The part of a nested edit that names what it changes.
pub enum NestedScope {
    Binding { binding_id: String },
    Ownership { binding_id: String, ownership_id: String },
    Target { binding_id: String, target_id: String },
    Claim { binding_id: String, target_id: String },
    Contract { contract_id: String },
}

/// The part of a specification edit that names what it changes.
pub enum EditScope {
    Anchor { anchor: String },
    Specification { item_id: String },
    Nested { item_id: String, edit: NestedScope },
    AddCriterion { requirement_id: String, criterion_id: String },
    CreateRequirement { id: String },
    CreateFeature { id: String },
    AddFeatureTarget { feature_id: String, criterion_anchor: String },
    Other,
}

/// An ownership scope of an artifact: the binding and the scope's id.
pub struct ArtifactOwner {
    pub binding: String,
    pub scope_id: String,
}

/// The artifact of a target.
pub struct TargetArtifact {
    pub target: String,
    pub artifact: String,
}

/// The ownership scopes of an artifact.
pub struct ArtifactOwners {
    pub artifact: String,
    pub owners: Vec<ArtifactOwner>,
}

/// What the edit's reading of the candidate index needs.
pub struct ImpactIndex {
    /// Every anchor the index resolves.
    pub anchors: SortedStrings,
    /// For an item, its anchors.
    pub item_anchors: Vec<AnchorRelation>,
    /// For a criterion, its implementation targets.
    pub criteria_to_implementation_targets: Vec<AnchorRelation>,
    /// For a criterion, its verification targets.
    pub criteria_to_verification_targets: Vec<AnchorRelation>,
    pub target_to_artifact: Vec<TargetArtifact>,
    pub artifact_owners: Vec<ArtifactOwners>,
}

/// What an edit touches.
pub struct EditImpact {
    pub changed_anchors: Vec<String>,
    pub affected_items: Vec<String>,
    pub implementation_targets: Vec<String>,
    pub verification_targets: Vec<String>,
    pub affected_ownership: Vec<String>,
    pub work: crate::projection::WorkImpact,
}

/// `k` is the entry of `rel` for `a` (its first entry).
pub open spec fn entry_at(rel: Seq<AnchorRelation>, a: Seq<char>, k: int) -> bool {
    0 <= k < rel.len() && rel[k].anchor@ == a && forall|j: int| 0 <= j < k ==> (#[trigger] rel[j]).anchor@ != a
}

/// What `rel` relates to `a`: the related anchors of its entry, if any.
pub open spec fn related_of(rel: Seq<AnchorRelation>, a: Seq<char>) -> Set<Seq<char>> {
    Set::new(|x: Seq<char>| exists|k: int| entry_at(rel, a, k) && strs(rel[k].related@).contains(x))
}

pub open spec fn nested_anchors(item: Seq<char>, e: NestedScope) -> Set<Seq<char>> {
    let binding = |b: Seq<char>| item + "#binding."@ + b;
    match e {
        NestedScope::Binding { binding_id } => set![binding(binding_id@)],
        NestedScope::Ownership { binding_id, ownership_id } => set![
            binding(binding_id@),
            binding(binding_id@) + "/owns."@ + ownership_id@,
        ],
        NestedScope::Target { binding_id, target_id } => set![
            binding(binding_id@),
            binding(binding_id@) + "/target."@ + target_id@,
        ],
        NestedScope::Claim { binding_id, target_id } => set![binding(binding_id@) + "/target."@ + target_id@],
        NestedScope::Contract { contract_id } => set![item + "#contract."@ + contract_id@],
    }
}

/// The anchors an edit changes.
pub open spec fn changed_anchor_set(patch: EditScope, index: ImpactIndex) -> Set<Seq<char>> {
    match patch {
        EditScope::Anchor { anchor } => set![anchor@],
        EditScope::Specification { .. } => Set::empty(),
        EditScope::Nested { item_id, edit } => set![item_id@] + nested_anchors(item_id@, edit),
        EditScope::AddCriterion { requirement_id, criterion_id } => {
            let a = requirement_id@ + "#criterion."@ + criterion_id@;
            if index.anchors@.contains(a) {
                set![a]
            } else {
                Set::empty()
            }
        },
        EditScope::CreateRequirement { id } => related_of(index.item_anchors@, id@),
        EditScope::CreateFeature { id } => related_of(index.item_anchors@, id@),
        EditScope::AddFeatureTarget { criterion_anchor, .. } => set![criterion_anchor@],
        EditScope::Other => Set::empty(),
    }
}

/// The item an edit names itself, if any.
pub open spec fn named_item(patch: EditScope) -> Option<Seq<char>> {
    match patch {
        EditScope::Specification { item_id } => Some(item_id@),
        EditScope::Nested { item_id, .. } => Some(item_id@),
        EditScope::AddCriterion { requirement_id, .. } => Some(requirement_id@),
        EditScope::CreateRequirement { id } => Some(id@),
        EditScope::CreateFeature { id } => Some(id@),
        EditScope::AddFeatureTarget { feature_id, .. } => Some(feature_id@),
        _ => None,
    }
}

/// The items an edit affects: those of its changed anchors and the one it
/// names.
pub open spec fn affected_item_set(changed: Set<Seq<char>>, patch: EditScope) -> Set<Seq<char>> {
    Set::new(
        |i: Seq<char>|
            (exists|a: Seq<char>| changed.contains(a) && item_part(a) == i) || named_item(patch) == Some(i),
    )
}

/// The targets `rel` relates to any changed anchor.
pub open spec fn targets_of(changed: Set<Seq<char>>, rel: Seq<AnchorRelation>) -> Set<Seq<char>> {
    Set::new(|t: Seq<char>| exists|a: Seq<char>| changed.contains(a) && related_of(rel, a).contains(t))
}

/// The artifact of target `t`, if the index has one (its first entry).
pub open spec fn artifact_entry(m: Seq<TargetArtifact>, t: Seq<char>, k: int) -> bool {
    0 <= k < m.len() && m[k].target@ == t && forall|j: int| 0 <= j < k ==> (#[trigger] m[j]).target@ != t
}

pub open spec fn owners_entry(m: Seq<ArtifactOwners>, a: Seq<char>, k: int) -> bool {
    0 <= k < m.len() && m[k].artifact@ == a && forall|j: int| 0 <= j < k ==> (#[trigger] m[j]).artifact@ != a
}

/// How an ownership scope is named: `binding#scope`.
pub open spec fn owner_label(o: ArtifactOwner) -> Seq<char> {
    o.binding@ + "#"@ + o.scope_id@
}

pub open spec fn owner_labels(owners: Seq<ArtifactOwner>) -> Set<Seq<char>> {
    Set::new(|x: Seq<char>| exists|w: int| 0 <= w < owners.len() && owner_label(#[trigger] owners[w]) == x)
}

/// The ownership scopes of the artifact of target `t`.
#[verifier::opaque]
pub open spec fn ownership_of(index: ImpactIndex, t: Seq<char>) -> Set<Seq<char>> {
    if exists|k: int| artifact_entry(index.target_to_artifact@, t, k) {
        let k = choose|k: int| artifact_entry(index.target_to_artifact@, t, k);
        let a = index.target_to_artifact@[k].artifact@;
        if exists|q: int| owners_entry(index.artifact_owners@, a, q) {
            owner_labels(index.artifact_owners@[choose|q: int| owners_entry(index.artifact_owners@, a, q)].owners@)
        } else {
            Set::empty()
        }
    } else {
        Set::empty()
    }
}

/// The ownership scopes of any of `targets`.
pub open spec fn ownership_set(index: ImpactIndex, targets: Set<Seq<char>>) -> Set<Seq<char>> {
    Set::new(|o: Seq<char>| exists|t: Seq<char>| targets.contains(t) && ownership_of(index, t).contains(o))
}

pub open spec fn sorted_as(v: Seq<String>, s: Set<Seq<char>>) -> bool {
    crate::trace::ids_sorted(strs(v)) && strs(v).to_set() == s
}

// ---------------------------------------------------------------------------
// Computing the impact

fn find_entry(rel: &Vec<AnchorRelation>, a: &str) -> (r: Option<usize>)
    ensures
        match r {
            Some(k) => entry_at(rel@, a@, k as int),
            None => forall|k: int| !entry_at(rel@, a@, k),
        },
{
    let mut k: usize = 0;
    while k < rel.len()
        invariant
            k <= rel.len(),
            forall|j: int| 0 <= j < k ==> (#[trigger] rel@[j]).anchor@ != a@,
        decreases rel.len() - k,
    {
        if str_eq(rel[k].anchor.as_str(), a) {
            return Some(k);
        }
        k = k + 1;
    }
    None
}

proof fn lemma_entry_unique(rel: Seq<AnchorRelation>, a: Seq<char>, k: int, k2: int)
    requires
        entry_at(rel, a, k),
        entry_at(rel, a, k2),
    ensures
        k == k2,
{
    if k < k2 {
        assert(rel[k].anchor@ == a);
    } else if k2 < k {
        assert(rel[k2].anchor@ == a);
    }
}

/// Adds what `rel` relates to `a`.
fn insert_related_of(set: &mut SortedStrings, rel: &Vec<AnchorRelation>, a: &str)
    ensures
        final(set)@.to_set() == old(set)@.to_set() + related_of(rel@, a@),
{
    match find_entry(rel, a) {
        Some(k) => {
            crate::closures::insert_all(set, &rel[k].related);
            proof {
                assert forall|x: Seq<char>| related_of(rel@, a@).contains(x) == strs(rel@[k as int].related@).contains(x) by {
                    if related_of(rel@, a@).contains(x) {
                        let k2 = choose|k2: int| entry_at(rel@, a@, k2) && strs(rel@[k2].related@).contains(x);
                        lemma_entry_unique(rel@, a@, k as int, k2);
                    }
                }
                assert forall|x: Seq<char>| strs(rel@[k as int].related@).contains(x) == strs(rel@[k as int].related@).to_set().contains(x) by {}
                assert(final(set)@.to_set() =~= old(set)@.to_set() + related_of(rel@, a@));
            }
        },
        None => {
            proof {
                assert(related_of(rel@, a@) =~= Set::empty());
                assert(set@.to_set() =~= set@.to_set() + related_of(rel@, a@));
            }
        },
    }
}

/// What `rel` relates to any of `keys`.
fn related_to_keys(keys: &Vec<String>, rel: &Vec<AnchorRelation>) -> (r: SortedStrings)
    ensures
        r@.to_set() == Set::new(
            |t: Seq<char>| exists|a: Seq<char>| strs(keys@).contains(a) && related_of(rel@, a).contains(t),
        ),
{
    let mut out = SortedStrings::new();
    let mut i: usize = 0;
    proof {
        assert(out@.to_set() =~= Set::new(
            |t: Seq<char>| exists|a: Seq<char>| strs(keys@).take(0).contains(a) && related_of(rel@, a).contains(t),
        ));
    }
    while i < keys.len()
        invariant
            i <= keys.len(),
            out@.to_set() == Set::new(
                |t: Seq<char>| exists|a: Seq<char>| strs(keys@).take(i as int).contains(a) && related_of(rel@, a).contains(t),
            ),
        decreases keys.len() - i,
    {
        let ghost before = out@.to_set();
        insert_related_of(&mut out, rel, keys[i].as_str());
        proof {
            let ks = strs(keys@);
            assert(ks[i as int] == keys@[i as int]@);
            assert(ks.take(i + 1) =~= ks.take(i as int).push(ks[i as int]));
            assert forall|t: Seq<char>| out@.to_set().contains(t) == (exists|a: Seq<char>|
                ks.take(i + 1).contains(a) && related_of(rel@, a).contains(t)) by {
                let t1 = ks.take(i + 1);
                let t0 = ks.take(i as int);
                assert(before.contains(t) == (exists|a: Seq<char>| t0.contains(a) && related_of(rel@, a).contains(t)));
                assert(out@.to_set().contains(t) == (before.contains(t) || related_of(rel@, ks[i as int]).contains(t)));
                if exists|a: Seq<char>| t1.contains(a) && related_of(rel@, a).contains(t) {
                    let a = choose|a: Seq<char>| t1.contains(a) && related_of(rel@, a).contains(t);
                    let q = choose|q: int| 0 <= q < t1.len() && #[trigger] t1[q] == a;
                    if q < i {
                        assert(t0[q] == a);
                        assert(t0.contains(a));
                        assert(before.contains(t));
                    } else {
                        assert(a == ks[i as int]);
                    }
                }
                if exists|a: Seq<char>| t0.contains(a) && related_of(rel@, a).contains(t) {
                    let a = choose|a: Seq<char>| t0.contains(a) && related_of(rel@, a).contains(t);
                    let q = choose|q: int| 0 <= q < t0.len() && #[trigger] t0[q] == a;
                    assert(t1[q] == a);
                }
                if related_of(rel@, ks[i as int]).contains(t) {
                    assert(t1[i as int] == ks[i as int]);
                    assert(t1.contains(ks[i as int]));
                }
            }
            assert(out@.to_set() =~= Set::new(
                |t: Seq<char>| exists|a: Seq<char>| ks.take(i + 1).contains(a) && related_of(rel@, a).contains(t),
            ));
        }
        i = i + 1;
    }
    proof {
        assert(strs(keys@).take(keys@.len() as int) =~= strs(keys@));
    }
    out
}

fn joined(a: &str, b: &str, c: &str) -> (r: String)
    ensures
        r@ == a@ + b@ + c@,
{
    let mut r = owned(a);
    append(&mut r, b);
    append(&mut r, c);
    r
}

/// The anchors a nested edit changes, added to `set`.
fn insert_nested(set: &mut SortedStrings, item: &str, edit: &NestedScope)
    ensures
        final(set)@.to_set() == old(set)@.to_set() + nested_anchors(item@, *edit),
{
    let ghost start = set@.to_set();
    match edit {
        NestedScope::Binding { binding_id } => {
            let b = joined(item, "#binding.", binding_id.as_str());
            set.insert(b.as_str());
            proof {
                assert(set@.to_set() =~= start + nested_anchors(item@, *edit));
            }
        },
        NestedScope::Ownership { binding_id, ownership_id } => {
            let b = joined(item, "#binding.", binding_id.as_str());
            let o = joined(b.as_str(), "/owns.", ownership_id.as_str());
            set.insert(b.as_str());
            set.insert(o.as_str());
            proof {
                assert(set@.to_set() =~= start + nested_anchors(item@, *edit));
            }
        },
        NestedScope::Target { binding_id, target_id } => {
            let b = joined(item, "#binding.", binding_id.as_str());
            let t = joined(b.as_str(), "/target.", target_id.as_str());
            set.insert(b.as_str());
            set.insert(t.as_str());
            proof {
                assert(set@.to_set() =~= start + nested_anchors(item@, *edit));
            }
        },
        NestedScope::Claim { binding_id, target_id } => {
            let b = joined(item, "#binding.", binding_id.as_str());
            let t = joined(b.as_str(), "/target.", target_id.as_str());
            set.insert(t.as_str());
            proof {
                assert(set@.to_set() =~= start + nested_anchors(item@, *edit));
            }
        },
        NestedScope::Contract { contract_id } => {
            let c = joined(item, "#contract.", contract_id.as_str());
            set.insert(c.as_str());
            proof {
                assert(set@.to_set() =~= start + nested_anchors(item@, *edit));
            }
        },
    }
}

/// The anchors a specification edit changes, in anchor order.
pub fn changed_specification_anchors(index: &ImpactIndex, patch: &EditScope) -> (r: SortedStrings)
    ensures
        r@.to_set() == changed_anchor_set(*patch, *index),
{
    let mut set = SortedStrings::new();
    proof {
        assert(set@.to_set() =~= Set::empty());
    }
    match patch {
        EditScope::Anchor { anchor } => {
            set.insert(anchor.as_str());
            proof {
                assert(set@.to_set() =~= changed_anchor_set(*patch, *index));
            }
        },
        EditScope::Specification { .. } => {
            proof {
                assert(set@.to_set() =~= changed_anchor_set(*patch, *index));
            }
        },
        EditScope::Nested { item_id, edit } => {
            set.insert(item_id.as_str());
            insert_nested(&mut set, item_id.as_str(), edit);
            proof {
                assert(set@.to_set() =~= changed_anchor_set(*patch, *index));
            }
        },
        EditScope::AddCriterion { requirement_id, criterion_id } => {
            let a = joined(requirement_id.as_str(), "#criterion.", criterion_id.as_str());
            if index.anchors.contains(a.as_str()) {
                set.insert(a.as_str());
            }
            proof {
                assert(set@.to_set() =~= changed_anchor_set(*patch, *index));
            }
        },
        EditScope::CreateRequirement { id } => {
            insert_related_of(&mut set, &index.item_anchors, id.as_str());
            proof {
                assert(set@.to_set() =~= changed_anchor_set(*patch, *index));
            }
        },
        EditScope::CreateFeature { id } => {
            insert_related_of(&mut set, &index.item_anchors, id.as_str());
            proof {
                assert(set@.to_set() =~= changed_anchor_set(*patch, *index));
            }
        },
        EditScope::AddFeatureTarget { criterion_anchor, .. } => {
            set.insert(criterion_anchor.as_str());
            proof {
                assert(set@.to_set() =~= changed_anchor_set(*patch, *index));
            }
        },
        EditScope::Other => {
            proof {
                assert(set@.to_set() =~= changed_anchor_set(*patch, *index));
            }
        },
    }
    set
}

/// The items of `anchors`, with the one the edit names.
fn affected_items(anchors: &Vec<String>, patch: &EditScope) -> (r: SortedStrings)
    ensures
        r@.to_set() == affected_item_set(strs(anchors@).to_set(), *patch),
{
    let ghost cv = strs(anchors@);
    let mut set = SortedStrings::new();
    let mut k: usize = 0;
    proof {
        assert(set@.to_set() =~= Set::new(
            |i: Seq<char>| exists|a: Seq<char>| cv.take(0).contains(a) && item_part(a) == i,
        ));
    }
    while k < anchors.len()
        invariant
            k <= anchors.len(),
            cv == strs(anchors@),
            set@.to_set() == Set::new(
                |i: Seq<char>| exists|a: Seq<char>| cv.take(k as int).contains(a) && item_part(a) == i,
            ),
        decreases anchors.len() - k,
    {
        let item = item_of_anchor(anchors[k].as_str());
        let ghost before = set@.to_set();
        set.insert(item.as_str());
        proof {
            let t1 = cv.take(k + 1);
            let t0 = cv.take(k as int);
            assert(cv[k as int] == anchors@[k as int]@);
            assert forall|i: Seq<char>| set@.to_set().contains(i) == (exists|a: Seq<char>| t1.contains(a) && item_part(a) == i) by {
                assert(before.contains(i) == (exists|a: Seq<char>| t0.contains(a) && item_part(a) == i));
                if exists|a: Seq<char>| t1.contains(a) && item_part(a) == i {
                    let a = choose|a: Seq<char>| t1.contains(a) && item_part(a) == i;
                    let q = choose|q: int| 0 <= q < t1.len() && #[trigger] t1[q] == a;
                    if q < k {
                        assert(t0[q] == a);
                        assert(t0.contains(a));
                    } else {
                        assert(a == cv[k as int]);
                    }
                }
                if exists|a: Seq<char>| t0.contains(a) && item_part(a) == i {
                    let a = choose|a: Seq<char>| t0.contains(a) && item_part(a) == i;
                    let q = choose|q: int| 0 <= q < t0.len() && #[trigger] t0[q] == a;
                    assert(t1[q] == a);
                }
                if i == item_part(cv[k as int]) {
                    assert(t1[k as int] == cv[k as int]);
                    assert(t1.contains(cv[k as int]));
                }
            }
            assert(set@.to_set() =~= Set::new(
                |i: Seq<char>| exists|a: Seq<char>| t1.contains(a) && item_part(a) == i,
            ));
        }
        k = k + 1;
    }
    let ghost from_anchors = set@.to_set();
    let named: Option<&String> = match patch {
        EditScope::Specification { item_id } => Some(item_id),
        EditScope::Nested { item_id, .. } => Some(item_id),
        EditScope::AddCriterion { requirement_id, .. } => Some(requirement_id),
        EditScope::CreateRequirement { id } => Some(id),
        EditScope::CreateFeature { id } => Some(id),
        EditScope::AddFeatureTarget { feature_id, .. } => Some(feature_id),
        _ => None,
    };
    if let Some(n) = named {
        set.insert(n.as_str());
    }
    proof {
        assert(cv.take(cv.len() as int) =~= cv);
        assert forall|i: Seq<char>| set@.to_set().contains(i) == affected_item_set(cv.to_set(), *patch).contains(i) by {
            if exists|a: Seq<char>| cv.to_set().contains(a) && item_part(a) == i {
                let a = choose|a: Seq<char>| cv.to_set().contains(a) && item_part(a) == i;
                assert(cv.contains(a));
            }
            if exists|a: Seq<char>| cv.contains(a) && item_part(a) == i {
                let a = choose|a: Seq<char>| cv.contains(a) && item_part(a) == i;
                assert(cv.to_set().contains(a));
            }
        }
        assert(set@.to_set() =~= affected_item_set(cv.to_set(), *patch));
    }
    set
}

/// The ownership scopes of the artifact of target `t`, added to `set`.
fn insert_ownership_of(set: &mut SortedStrings, index: &ImpactIndex, t: &str)
    ensures
        final(set)@.to_set() == old(set)@.to_set() + ownership_of(*index, t@),
{
    reveal(ownership_of);
    let ghost start = set@.to_set();
    let m = &index.target_to_artifact;
    let mut k: usize = 0;
    while k < m.len()
        invariant
            k <= m.len(),
            forall|j: int| 0 <= j < k ==> (#[trigger] m@[j]).target@ != t@,
        ensures
            k <= m.len(),
            forall|j: int| 0 <= j < k ==> (#[trigger] m@[j]).target@ != t@,
            k < m.len() ==> m@[k as int].target@ == t@,
        decreases m.len() - k,
    {
        if str_eq(m[k].target.as_str(), t) {
            break;
        }
        k = k + 1;
    }
    if k == m.len() {
        proof {
            assert(!exists|k2: int| artifact_entry(index.target_to_artifact@, t@, k2));
            assert(set@.to_set() =~= start + ownership_of(*index, t@));
        }
        return;
    }
    proof {
        assert(artifact_entry(m@, t@, k as int));
        let k2 = choose|k2: int| artifact_entry(index.target_to_artifact@, t@, k2);
        if k2 < k {
            assert(m@[k2].target@ == t@);
        } else if k2 > k {
            assert(m@[k as int].target@ == t@);
        }
    }
    let a = m[k].artifact.as_str();
    let owners = &index.artifact_owners;
    let mut q: usize = 0;
    while q < owners.len()
        invariant
            q <= owners.len(),
            forall|j: int| 0 <= j < q ==> (#[trigger] owners@[j]).artifact@ != a@,
        ensures
            q <= owners.len(),
            forall|j: int| 0 <= j < q ==> (#[trigger] owners@[j]).artifact@ != a@,
            q < owners.len() ==> owners@[q as int].artifact@ == a@,
        decreases owners.len() - q,
    {
        if str_eq(owners[q].artifact.as_str(), a) {
            break;
        }
        q = q + 1;
    }
    if q == owners.len() {
        proof {
            assert(!exists|q2: int| owners_entry(index.artifact_owners@, a@, q2));
            assert(set@.to_set() =~= start + ownership_of(*index, t@));
        }
        return;
    }
    proof {
        assert(owners_entry(owners@, a@, q as int));
        let q2 = choose|q2: int| owners_entry(index.artifact_owners@, a@, q2);
        if q2 < q {
            assert(owners@[q2].artifact@ == a@);
        } else if q2 > q {
            assert(owners@[q as int].artifact@ == a@);
        }
    }
    let os = &owners[q].owners;
    let mut w: usize = 0;
    proof {
        assert(set@.to_set() =~= start + Set::new(
            |x: Seq<char>| exists|v: int| 0 <= v < 0 && owner_label(#[trigger] os@[v]) == x,
        ));
    }
    while w < os.len()
        invariant
            w <= os.len(),
            set@.to_set() == start + Set::new(
                |x: Seq<char>| exists|v: int| 0 <= v < w && owner_label(#[trigger] os@[v]) == x,
            ),
        decreases os.len() - w,
    {
        let label = joined(os[w].binding.as_str(), "#", os[w].scope_id.as_str());
        set.insert(label.as_str());
        proof {
            assert(owner_label(os@[w as int]) == label@);
            assert(set@.to_set() =~= start + Set::new(
                |x: Seq<char>| exists|v: int| 0 <= v < w + 1 && owner_label(#[trigger] os@[v]) == x,
            ));
        }
        w = w + 1;
    }
    proof {
        assert(set@.to_set() =~= start + ownership_of(*index, t@));
    }
}

/// The ownership scopes of the artifacts of `targets`, in order.
pub fn ownership_for_targets(index: &ImpactIndex, targets: &Vec<String>) -> (r: SortedStrings)
    ensures
        r@.to_set() == ownership_set(*index, strs(targets@).to_set()),
{
    let ghost tv = strs(targets@);
    let mut set = SortedStrings::new();
    let mut k: usize = 0;
    proof {
        assert(set@.to_set() =~= Set::new(
            |o: Seq<char>| exists|t: Seq<char>| tv.take(0).contains(t) && ownership_of(*index, t).contains(o),
        ));
    }
    while k < targets.len()
        invariant
            k <= targets.len(),
            tv == strs(targets@),
            set@.to_set() == Set::new(
                |o: Seq<char>| exists|t: Seq<char>| tv.take(k as int).contains(t) && ownership_of(*index, t).contains(o),
            ),
        decreases targets.len() - k,
    {
        let ghost before = set@.to_set();
        insert_ownership_of(&mut set, index, targets[k].as_str());
        proof {
            let t1 = tv.take(k + 1);
            let t0 = tv.take(k as int);
            assert(tv[k as int] == targets@[k as int]@);
            assert forall|o: Seq<char>| set@.to_set().contains(o) == (before.contains(o) || ownership_of(*index, tv[k as int]).contains(o)) by {}
            assert forall|o: Seq<char>| set@.to_set().contains(o) == (exists|t: Seq<char>|
                t1.contains(t) && ownership_of(*index, t).contains(o)) by {
                assert(before.contains(o) == (exists|t: Seq<char>| t0.contains(t) && ownership_of(*index, t).contains(o)));
                if exists|t: Seq<char>| t1.contains(t) && ownership_of(*index, t).contains(o) {
                    let t = choose|t: Seq<char>| t1.contains(t) && ownership_of(*index, t).contains(o);
                    let q = choose|q: int| 0 <= q < t1.len() && #[trigger] t1[q] == t;
                    if q < k {
                        assert(t0[q] == t);
                        assert(t0.contains(t));
                    } else {
                        assert(t == tv[k as int]);
                    }
                }
                if exists|t: Seq<char>| t0.contains(t) && ownership_of(*index, t).contains(o) {
                    let t = choose|t: Seq<char>| t0.contains(t) && ownership_of(*index, t).contains(o);
                    let q = choose|q: int| 0 <= q < t0.len() && #[trigger] t0[q] == t;
                    assert(t1[q] == t);
                    assert(t1.contains(t));
                }
                if ownership_of(*index, tv[k as int]).contains(o) {
                    assert(t1[k as int] == tv[k as int]);
                    assert(t1.contains(tv[k as int]));
                }
            }
            assert(set@.to_set() =~= Set::new(
                |o: Seq<char>| exists|t: Seq<char>| t1.contains(t) && ownership_of(*index, t).contains(o),
            ));
        }
        k = k + 1;
    }
    proof {
        assert(tv.take(tv.len() as int) =~= tv);
        assert forall|o: Seq<char>| set@.to_set().contains(o) == ownership_set(*index, tv.to_set()).contains(o) by {
            if exists|t: Seq<char>| tv.to_set().contains(t) && ownership_of(*index, t).contains(o) {
                let t = choose|t: Seq<char>| tv.to_set().contains(t) && ownership_of(*index, t).contains(o);
                assert(tv.contains(t));
            }
            if exists|t: Seq<char>| tv.contains(t) && ownership_of(*index, t).contains(o) {
                let t = choose|t: Seq<char>| tv.contains(t) && ownership_of(*index, t).contains(o);
                assert(tv.to_set().contains(t));
            }
        }
        assert(set@.to_set() =~= ownership_set(*index, tv.to_set()));
    }
    set
}

/// What a specification edit touches in the candidate index: the anchors
/// it changes, the items it affects, the implementation and verification
/// targets of the changed criteria and their ownership scopes, each in
/// order; and whether work can be seeded from it.
pub fn edit_impact(index: &ImpactIndex, patch: &EditScope, requires_replan: bool) -> (r: EditImpact)
    ensures
        sorted_as(r.changed_anchors@, changed_anchor_set(*patch, *index)),
        sorted_as(r.affected_items@, affected_item_set(changed_anchor_set(*patch, *index), *patch)),
        sorted_as(
            r.implementation_targets@,
            targets_of(changed_anchor_set(*patch, *index), index.criteria_to_implementation_targets@),
        ),
        sorted_as(
            r.verification_targets@,
            targets_of(changed_anchor_set(*patch, *index), index.criteria_to_verification_targets@),
        ),
        sorted_as(
            r.affected_ownership@,
            ownership_set(
                *index,
                targets_of(changed_anchor_set(*patch, *index), index.criteria_to_implementation_targets@)
                    + targets_of(changed_anchor_set(*patch, *index), index.criteria_to_verification_targets@),
            ),
        ),
        r.work.seedable == (r.implementation_targets@.len() > 0),
        r.work.requires_replan == requires_replan,
        r.work.reason@ == (if requires_replan {
            "Existing work plan must be reviewed after a specification change."@
        } else if r.implementation_targets@.len() == 0 {
            "No explicit implementation target is attached to this candidate yet."@
        } else {
            "Explicit implementation targets are available for review."@
        }),
{
    let ghost changed_set = changed_anchor_set(*patch, *index);
    let changed = changed_specification_anchors(index, patch).to_vec();
    let items = affected_items(&changed, patch).to_vec();
    let implementation = related_to_keys(&changed, &index.criteria_to_implementation_targets).to_vec();
    let verification = related_to_keys(&changed, &index.criteria_to_verification_targets).to_vec();
    proof {
        let cv = strs(changed@);
        assert(cv.to_set() == changed_set);
        assert forall|rel: Seq<AnchorRelation>, t: Seq<char>|
            (exists|a: Seq<char>| cv.contains(a) && related_of(rel, a).contains(t)) == targets_of(changed_set, rel).contains(t) by {
            if exists|a: Seq<char>| cv.contains(a) && related_of(rel, a).contains(t) {
                let a = choose|a: Seq<char>| cv.contains(a) && related_of(rel, a).contains(t);
                assert(changed_set.contains(a));
            }
            if targets_of(changed_set, rel).contains(t) {
                let a = choose|a: Seq<char>| changed_set.contains(a) && related_of(rel, a).contains(t);
                assert(cv.contains(a));
            }
        }
        assert(strs(implementation@).to_set() =~= targets_of(changed_set, index.criteria_to_implementation_targets@));
        assert(strs(verification@).to_set() =~= targets_of(changed_set, index.criteria_to_verification_targets@));
    }
    let mut all_targets: Vec<String> = Vec::new();
    let mut k: usize = 0;
    while k < implementation.len()
        invariant
            k <= implementation.len(),
            strs(all_targets@) == strs(implementation@).take(k as int),
        decreases implementation.len() - k,
    {
        let ghost before = all_targets@;
        all_targets.push(implementation[k].clone());
        proof {
            assert(strs(all_targets@) =~= strs(before).push(implementation@[k as int]@));
            assert(strs(implementation@).take(k + 1) =~= strs(implementation@).take(k as int).push(implementation@[k as int]@));
        }
        k = k + 1;
    }
    let mut j: usize = 0;
    proof {
        assert(strs(implementation@).take(implementation@.len() as int) =~= strs(implementation@));
        assert(strs(all_targets@) =~= strs(implementation@) + strs(verification@).take(0));
    }
    while j < verification.len()
        invariant
            j <= verification.len(),
            strs(all_targets@) == strs(implementation@) + strs(verification@).take(j as int),
        decreases verification.len() - j,
    {
        let ghost before = all_targets@;
        all_targets.push(verification[j].clone());
        proof {
            assert(strs(all_targets@) =~= strs(before).push(verification@[j as int]@));
            assert(strs(verification@).take(j + 1) =~= strs(verification@).take(j as int).push(verification@[j as int]@));
            assert(strs(all_targets@) =~= strs(implementation@) + strs(verification@).take(j + 1));
        }
        j = j + 1;
    }
    proof {
        assert(strs(verification@).take(verification@.len() as int) =~= strs(verification@));
        let a = strs(implementation@);
        let b = strs(verification@);
        assert forall|x: Seq<char>| (a + b).to_set().contains(x) == (a.to_set() + b.to_set()).contains(x) by {
            if (a + b).contains(x) {
                let q = choose|q: int| 0 <= q < (a + b).len() && (a + b)[q] == x;
                if q < a.len() {
                    assert(a[q] == x);
                } else {
                    assert(b[q - a.len()] == x);
                }
            }
            if a.contains(x) {
                let q = choose|q: int| 0 <= q < a.len() && a[q] == x;
                assert((a + b)[q] == x);
            }
            if b.contains(x) {
                let q = choose|q: int| 0 <= q < b.len() && b[q] == x;
                assert((a + b)[q + a.len()] == x);
            }
        }
        assert((a + b).to_set() =~= a.to_set() + b.to_set());
    }
    let ownership = ownership_for_targets(index, &all_targets).to_vec();
    let has_implementation = implementation.len() > 0;
    let work = crate::projection::work_impact(has_implementation, requires_replan);
    EditImpact {
        changed_anchors: changed,
        affected_items: items,
        implementation_targets: implementation,
        verification_targets: verification,
        affected_ownership: ownership,
        work,
    }
}

} // verus!
