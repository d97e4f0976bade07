//! Whether a Feature edit links it to an exact, active Requirement
//! Criterion, and a target addition to a planned Feature.
use vstd::prelude::*;
use crate::catalog::ItemSummary;
use crate::text::{append, owned, str_eq};

verus! {

/// The part of a specification edit that links a Feature to a criterion.
pub enum FeatureLinkPatch {
    /// A new Feature: its criterion link and planned target, if any, and
    /// its status text, if given.
    CreateFeature { criterion_anchor: Option<String>, has_target: bool, status: Option<String> },
    /// A target added to an existing Feature for a criterion.
    AddFeatureTarget { criterion_anchor: String, feature_id: String },
    /// Any other edit.
    Other,
}

/// An anchor as the specification model reads it: its item and the kind of
/// its local part.
#[derive(Debug, Clone)]
pub struct AnchorParts {
    pub item: String,
    pub kind: String,
}

pub open spec fn opt_view(o: Option<String>) -> Option<Seq<char>> {
    match o {
        Some(s) => Some(s@),
        None => None,
    }
}

/// `k` is the first item of the catalog with id `id`.
pub open spec fn item_at(items: Seq<ItemSummary>, id: Seq<char>, k: int) -> bool {
    0 <= k < items.len() && items[k].id@ == id && forall|j: int| 0 <= j < k ==> (#[trigger] items[j]).id@ != id
}

pub open spec fn has_item(items: Seq<ItemSummary>, id: Seq<char>) -> bool {
    exists|k: int| item_at(items, id, k)
}

pub open spec fn the_item(items: Seq<ItemSummary>, id: Seq<char>) -> ItemSummary {
    items[choose|k: int| item_at(items, id, k)]
}

pub open spec fn msg_together() -> Seq<char> {
    "a Feature must declare an exact Requirement Criterion and planned target together"@
}

pub open spec fn msg_planned() -> Seq<char> {
    "a Feature target must remain planned until its WorkRequest is approved and finalized"@
}

/// Where the link points and which Feature it adds to, or the outcome
/// without a link to check.
pub open spec fn link_of(patch: FeatureLinkPatch) -> Result<Option<(Seq<char>, Option<Seq<char>>)>, Seq<char>> {
    match patch {
        FeatureLinkPatch::CreateFeature { criterion_anchor, has_target, status } => {
            let not_planned = match status {
                Some(s) => s@ != "planned"@,
                None => false,
            };
            if criterion_anchor.is_some() != has_target {
                Err(msg_together())
            } else if criterion_anchor.is_none() {
                if not_planned {
                    Err(msg_planned())
                } else {
                    Ok(None)
                }
            } else if not_planned {
                Err(msg_planned())
            } else {
                Ok(Some((criterion_anchor->0@, None)))
            }
        },
        FeatureLinkPatch::AddFeatureTarget { criterion_anchor, feature_id } => Ok(
            Some((criterion_anchor@, Some(feature_id@))),
        ),
        FeatureLinkPatch::Other => Ok(None),
    }
}

/// Whether an item's status is deprecated.
pub open spec fn deprecated(i: ItemSummary) -> bool {
    opt_view(i.status) == Some("deprecated"@)
}

/// The outcome of checking the link to `anchor` (and the Feature
/// `feature`, for a target addition), given how the anchor parses.
pub open spec fn check_link(
    items: Seq<ItemSummary>,
    anchor: Seq<char>,
    feature: Option<Seq<char>>,
    parsed: Result<(Seq<char>, Seq<char>), Seq<char>>,
) -> Result<(), Seq<char>> {
    match parsed {
        Err(e) => Err("invalid feature criterion anchor: "@ + e),
        Ok((item, kind)) => if kind != "criterion"@ {
            Err("feature journey link must point to an exact Requirement Criterion"@)
        } else if !has_item(items, item) {
            Err("feature journey link references an unknown Requirement"@)
        } else if the_item(items, item).kind@ != "requirement"@ || deprecated(the_item(items, item)) {
            Err("feature journey link must reference an active Requirement"@)
        } else if !exists|c: int|
            0 <= c < the_item(items, item).criteria@.len() && (#[trigger] the_item(items, item).criteria@[c]).anchor@
                == anchor {
            Err("feature journey link must reference an exact existing Criterion"@)
        } else {
            match feature {
                None => Ok(()),
                Some(f) => if !has_item(items, f) {
                    Err("Feature target addition references an unknown Feature"@)
                } else if the_item(items, f).kind@ != "feature"@ || deprecated(the_item(items, f)) {
                    Err("Feature target addition must reference an active Feature"@)
                } else if opt_view(the_item(items, f).status) != Some("planned"@) {
                    Err(
                        "Feature target addition requires a planned Feature; implemented Features need an explicit lifecycle transition"@,
                    )
                } else {
                    Ok(())
                },
            }
        },
    }
}

pub open spec fn parsed_view(p: Result<AnchorParts, String>) -> Result<(Seq<char>, Seq<char>), Seq<char>> {
    match p {
        Ok(a) => Ok((a.item@, a.kind@)),
        Err(e) => Err(e@),
    }
}

/// The outcome of validating the Feature link of `patch`.
pub open spec fn feature_link_outcome(
    items: Seq<ItemSummary>,
    patch: FeatureLinkPatch,
    parsed: Result<AnchorParts, String>,
) -> Result<(), Seq<char>> {
    match link_of(patch) {
        Err(e) => Err(e),
        Ok(None) => Ok(()),
        Ok(Some((anchor, feature))) => check_link(items, anchor, feature, parsed_view(parsed)),
    }
}

pub open spec fn outcome_view(r: Result<(), String>) -> Result<(), Seq<char>> {
    match r {
        Ok(()) => Ok(()),
        Err(e) => Err(e@),
    }
}

fn find_item(items: &Vec<ItemSummary>, id: &str) -> (r: Option<usize>)
    ensures
        match r {
            Some(k) => item_at(items@, id@, k as int) && the_item(items@, id@) == items@[k as int],
            None => !has_item(items@, id@),
        },
{
    let mut k: usize = 0;
    while k < items.len()
        invariant
            k <= items.len(),
            forall|j: int| 0 <= j < k ==> (#[trigger] items@[j]).id@ != id@,
        decreases items.len() - k,
    {
        if str_eq(items[k].id.as_str(), id) {
            proof {
                assert(item_at(items@, id@, k as int));
                let c = choose|c: int| item_at(items@, id@, c);
                if c < k {
                    assert(items@[c].id@ == id@);
                } else if c > k {
                    assert(items@[k as int].id@ == id@);
                }
            }
            return Some(k);
        }
        k = k + 1;
    }
    proof {
        assert forall|c: int| !item_at(items@, id@, c) by {
            if item_at(items@, id@, c) {
                assert(items@[c].id@ == id@);
            }
        }
    }
    None
}

fn is_deprecated(i: &ItemSummary) -> (r: bool)
    ensures
        r == deprecated(*i),
{
    match &i.status {
        Some(s) => str_eq(s.as_str(), "deprecated"),
        None => false,
    }
}

fn fail(message: &str) -> (r: Result<(), String>)
    ensures
        outcome_view(r) == Err::<(), Seq<char>>(message@),
{
    Err(owned(message))
}

/// Validates the Feature link of `patch` against the catalog.  `parsed` is
/// how the specification model parses the link's criterion anchor; it is
/// read only when the patch links a criterion.
pub fn validate_feature_criterion_link(
    items: &Vec<ItemSummary>,
    patch: &FeatureLinkPatch,
    parsed: &Result<AnchorParts, String>,
) -> (r: Result<(), String>)
    ensures
        outcome_view(r) == feature_link_outcome(items@, *patch, *parsed),
{
    proof {
        reveal_strlit("planned");
    }
    let (anchor, feature): (&String, Option<&String>) = match patch {
        FeatureLinkPatch::CreateFeature { criterion_anchor, has_target, status } => {
            let not_planned = match status {
                Some(s) => !str_eq(s.as_str(), "planned"),
                None => false,
            };
            if criterion_anchor.is_some() != *has_target {
                return fail("a Feature must declare an exact Requirement Criterion and planned target together");
            }
            match criterion_anchor {
                None => {
                    if not_planned {
                        return fail("a Feature target must remain planned until its WorkRequest is approved and finalized");
                    }
                    return Ok(());
                },
                Some(a) => {
                    if not_planned {
                        return fail("a Feature target must remain planned until its WorkRequest is approved and finalized");
                    }
                    (a, None)
                },
            }
        },
        FeatureLinkPatch::AddFeatureTarget { criterion_anchor, feature_id } => (criterion_anchor, Some(feature_id)),
        FeatureLinkPatch::Other => {
            return Ok(());
        },
    };
    let parts = match parsed {
        Err(e) => {
            let mut m = owned("invalid feature criterion anchor: ");
            append(&mut m, e.as_str());
            return Err(m);
        },
        Ok(p) => p,
    };
    if !str_eq(parts.kind.as_str(), "criterion") {
        return fail("feature journey link must point to an exact Requirement Criterion");
    }
    let k = match find_item(items, parts.item.as_str()) {
        None => {
            return fail("feature journey link references an unknown Requirement");
        },
        Some(k) => k,
    };
    let item = &items[k];
    if !str_eq(item.kind.as_str(), "requirement") || is_deprecated(item) {
        return fail("feature journey link must reference an active Requirement");
    }
    let mut c: usize = 0;
    let mut found = false;
    while c < item.criteria.len()
        invariant
            c <= item.criteria.len(),
            found == exists|x: int| 0 <= x < c && (#[trigger] item.criteria@[x]).anchor@ == anchor@,
        decreases item.criteria.len() - c,
    {
        if str_eq(item.criteria[c].anchor.as_str(), anchor.as_str()) {
            found = true;
        }
        c = c + 1;
    }
    if !found {
        return fail("feature journey link must reference an exact existing Criterion");
    }
    match feature {
        None => Ok(()),
        Some(f) => {
            let q = match find_item(items, f.as_str()) {
                None => {
                    return fail("Feature target addition references an unknown Feature");
                },
                Some(q) => q,
            };
            let feat = &items[q];
            if !str_eq(feat.kind.as_str(), "feature") || is_deprecated(feat) {
                return fail("Feature target addition must reference an active Feature");
            }
            let planned = match &feat.status {
                Some(s) => str_eq(s.as_str(), "planned"),
                None => false,
            };
            if !planned {
                return fail(
                    "Feature target addition requires a planned Feature; implemented Features need an explicit lifecycle transition",
                );
            }
            Ok(())
        },
    }
}

} // verus!
