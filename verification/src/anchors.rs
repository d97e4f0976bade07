//! Which acceptance criteria the evidence of a root item closes over.
use vstd::prelude::*;
use crate::capabilities::item_part;
use crate::catalog::{ItemSummary, TargetClaim};
use crate::closures::{claimed_views, item_claims, ClaimedTarget};
use crate::sorted::SortedStrings;
use crate::text::{chars_of, str_eq};

verus! {

/// One entry of an index relation: an anchor and the anchors it relates to
/// (a criterion and the rules it is governed by; a rule and the principles
/// it is governed by).
pub struct AnchorRelation {
    pub anchor: String,
    pub related: Vec<String>,
}

pub open spec fn strs(v: Seq<String>) -> Seq<Seq<char>> {
    v.map_values(|s: String| s@)
}

/// Whether the canonical anchor `a` is a criterion anchor: its local part,
/// after the item and `#`, begins with `criterion.`.
pub open spec fn is_criterion_anchor(a: Seq<char>) -> bool {
    let item = item_part(a);
    item.len() < a.len() && a.skip(item.len() + 1 as int).len() >= 10 && a.skip(item.len() + 1 as int).take(10)
        == "criterion."@
}

/// The criterion a claim names, given as its kind, anchor and listed
/// targets: the one it satisfies or verifies, or an evidenced anchor that is
/// a criterion.
pub open spec fn claim_criterion(v: (nat, Seq<char>, Seq<Seq<char>>)) -> Option<Seq<char>> {
    if v.0 == 0 || v.0 == 1 || (v.0 == 6 && is_criterion_anchor(v.1)) {
        Some(v.1)
    } else {
        None
    }
}

/// Whether a claim of the root's targets names `c`.
pub open spec fn claimed_by(root: ItemSummary, c: Seq<char>) -> bool {
    exists|k: int| 0 <= k < item_claims(root).len() && claim_criterion(#[trigger] item_claims(root)[k].1) == Some(c)
}

/// Whether `rel` relates `c` to one of `anchors`.
pub open spec fn related_to_any(rel: Seq<AnchorRelation>, c: Seq<char>, anchors: Set<Seq<char>>) -> bool {
    exists|i: int, j: int|
        0 <= i < rel.len() && rel[i].anchor@ == c && 0 <= j < rel[i].related@.len() && anchors.contains(
            #[trigger] rel[i].related@[j]@,
        )
}

/// The rules governed by one of the principles `ps`.
pub open spec fn rules_of_principles(rules_to_principles: Seq<AnchorRelation>, ps: Set<Seq<char>>) -> Set<
    Seq<char>,
> {
    Set::new(|r: Seq<char>| related_to_any(rules_to_principles, r, ps))
}

pub open spec fn rule_anchors(root: ItemSummary) -> Set<Seq<char>> {
    Set::new(|a: Seq<char>| exists|i: int| 0 <= i < root.rules@.len() && #[trigger] root.rules@[i].anchor@ == a)
}

pub open spec fn principle_anchors(root: ItemSummary) -> Set<Seq<char>> {
    Set::new(
        |a: Seq<char>| exists|i: int| 0 <= i < root.principles@.len() && #[trigger] root.principles@[i].anchor@ == a,
    )
}

/// Whether some item of the catalog has the criterion `c`.
pub open spec fn in_catalog(items: Seq<ItemSummary>, c: Seq<char>) -> bool {
    exists|i: int, j: int| 0 <= i < items.len() && 0 <= j < items[i].criteria@.len() && #[trigger] items[i].criteria@[j].anchor@ == c
}

/// Whether the root's evidence reaches criterion `c`: one of its own; for a
/// feature, one its targets claim; for a policy, one governed by its rules;
/// for a philosophy, one governed by a rule its principles govern.
pub open spec fn root_reaches(
    root: ItemSummary,
    criteria_to_rules: Seq<AnchorRelation>,
    rules_to_principles: Seq<AnchorRelation>,
    c: Seq<char>,
) -> bool {
    ||| exists|j: int| 0 <= j < root.criteria@.len() && #[trigger] root.criteria@[j].anchor@ == c
    ||| root.kind@ == "feature"@ && claimed_by(root, c)
    ||| root.kind@ == "policy"@ && related_to_any(criteria_to_rules, c, rule_anchors(root))
    ||| root.kind@ == "philosophy"@ && related_to_any(
        criteria_to_rules,
        c,
        rules_of_principles(rules_to_principles, principle_anchors(root)),
    )
}

/// The criteria the closure of `root` covers: those it reaches that the
/// catalog holds.
pub open spec fn closure_criteria(
    items: Seq<ItemSummary>,
    root: ItemSummary,
    criteria_to_rules: Seq<AnchorRelation>,
    rules_to_principles: Seq<AnchorRelation>,
) -> Set<Seq<char>> {
    Set::new(
        |c: Seq<char>| root_reaches(root, criteria_to_rules, rules_to_principles, c) && in_catalog(items, c),
    )
}

fn is_criterion_anchor_exec(a: &str) -> (r: bool)
    ensures
        r == is_criterion_anchor(a@),
{
    let cs = chars_of(a);
    let item = crate::capabilities::item_of_anchor(a);
    let n = item.as_str().unicode_len();
    proof {
        assert(n == item@.len());
    }
    if n >= cs.len() {
        return false;
    }
    let rest = crate::text::suffix_from(&cs, n + 1);
    let prefix = chars_of("criterion.");
    proof {
        reveal_strlit("criterion.");
        assert(rest@ == cs@.skip(n + 1));
    }
    let r = crate::text::starts_with_exec(&rest, &prefix);
    proof {
        assert(rest@.take(10) =~= rest@.subrange(0, 10));
    }
    r
}

/// Whether one of `v` is in `set`.
fn any_in(set: &SortedStrings, v: &Vec<String>) -> (r: bool)
    ensures
        r == exists|j: int| 0 <= j < v@.len() && set@.to_set().contains(#[trigger] v@[j]@),
{
    let mut j: usize = 0;
    while j < v.len()
        invariant
            j <= v.len(),
            forall|q: int| 0 <= q < j ==> !set@.to_set().contains(#[trigger] v@[q]@),
        decreases v.len() - j,
    {
        if set.contains(v[j].as_str()) {
            return true;
        }
        j = j + 1;
    }
    false
}

/// The anchors of `rel` related to one of `anchors`, added to `set`.
fn insert_related(set: &mut SortedStrings, rel: &Vec<AnchorRelation>, anchors: &SortedStrings)
    ensures
        final(set)@.to_set() == old(set)@.to_set() + Set::new(
            |c: Seq<char>| related_to_any(rel@, c, anchors@.to_set()),
        ),
{
    let ghost start = set@.to_set();
    let ghost target = Set::new(|c: Seq<char>| related_to_any(rel@, c, anchors@.to_set()));
    let mut i: usize = 0;
    while i < rel.len()
        invariant
            i <= rel.len(),
            target == Set::new(|c: Seq<char>| related_to_any(rel@, c, anchors@.to_set())),
            set@.to_set() == start + Set::new(|c: Seq<char>| related_to_any(rel@.take(i as int), c, anchors@.to_set())),
        decreases rel.len() - i,
    {
        let hit = any_in(anchors, &rel[i].related);
        let ghost before = set@.to_set();
        if hit {
            set.insert(rel[i].anchor.as_str());
        }
        proof {
            let a = anchors@.to_set();
            let prev = Set::new(|c: Seq<char>| related_to_any(rel@.take(i as int), c, a));
            let next = Set::new(|c: Seq<char>| related_to_any(rel@.take(i + 1), c, a));
            assert forall|c: Seq<char>| next.contains(c) == (prev.contains(c) || (hit && c == rel@[i as int].anchor@)) by {
                if next.contains(c) {
                    let (x, y) = choose|x: int, y: int|
                        0 <= x < rel@.take(i + 1).len() && rel@.take(i + 1)[x].anchor@ == c && 0 <= y
                            < rel@.take(i + 1)[x].related@.len() && a.contains(#[trigger] rel@.take(i + 1)[x].related@[y]@);
                    if x < i {
                        assert(rel@.take(i as int)[x] == rel@.take(i + 1)[x]);
                        assert(related_to_any(rel@.take(i as int), c, a));
                    } else {
                        assert(rel@.take(i + 1)[x] == rel@[i as int]);
                    }
                }
                if prev.contains(c) {
                    let (x, y) = choose|x: int, y: int|
                        0 <= x < rel@.take(i as int).len() && rel@.take(i as int)[x].anchor@ == c && 0 <= y
                            < rel@.take(i as int)[x].related@.len() && a.contains(#[trigger] rel@.take(i as int)[x].related@[y]@);
                    assert(rel@.take(i + 1)[x] == rel@.take(i as int)[x]);
                    assert(related_to_any(rel@.take(i + 1), c, a));
                }
                if hit && c == rel@[i as int].anchor@ {
                    let y = choose|y: int| 0 <= y < rel@[i as int].related@.len() && a.contains(#[trigger] rel@[i as int].related@[y]@);
                    assert(rel@.take(i + 1)[i as int] == rel@[i as int]);
                    assert(a.contains(rel@.take(i + 1)[i as int].related@[y]@));
                    assert(related_to_any(rel@.take(i + 1), c, a));
                }
            }
            assert(set@.to_set() =~= start + next);
        }
        i = i + 1;
    }
    proof {
        assert(rel@.take(rel@.len() as int) =~= rel@);
    }
}

fn claim_criterion_exec(c: &ClaimedTarget) -> (r: Option<String>)
    ensures
        match r {
            Some(x) => claim_criterion(crate::closures::claim_view(c.claim)) == Some(x@),
            None => claim_criterion(crate::closures::claim_view(c.claim)) is None,
        },
{
    match &c.claim {
        TargetClaim::Satisfies { criterion } => Some(criterion.clone()),
        TargetClaim::Verifies { criterion, .. } => Some(criterion.clone()),
        TargetClaim::Evidences { anchor } => if is_criterion_anchor_exec(anchor.as_str()) {
            Some(anchor.clone())
        } else {
            None
        },
        _ => None,
    }
}

/// Whether some item of the catalog has the criterion `c`.
fn catalog_has_criterion(items: &Vec<ItemSummary>, c: &str) -> (r: bool)
    ensures
        r == in_catalog(items@, c@),
{
    let mut i: usize = 0;
    while i < items.len()
        invariant
            i <= items.len(),
            forall|x: int, y: int|
                0 <= x < i && 0 <= y < items@[x].criteria@.len() ==> #[trigger] items@[x].criteria@[y].anchor@ != c@,
        decreases items.len() - i,
    {
        let cs = &items[i].criteria;
        let mut j: usize = 0;
        while j < cs.len()
            invariant
                j <= cs.len(),
                i < items.len(),
                cs@ == items@[i as int].criteria@,
                forall|y: int| 0 <= y < j ==> #[trigger] cs@[y].anchor@ != c@,
            decreases cs.len() - j,
        {
            if str_eq(cs[j].anchor.as_str(), c) {
                proof {
                    assert(items@[i as int].criteria@[j as int].anchor@ == c@);
                }
                return true;
            }
            j = j + 1;
        }
        i = i + 1;
    }
    false
}

/// The criteria the closure of `root` covers, in anchor order: its own
/// criteria; for a feature, those its targets claim; for a policy, those
/// governed by its rules; for a philosophy, those governed by rules its
/// principles govern; of these, the ones some item of the catalog holds.
pub fn closure_criterion_anchors(
    items: &Vec<ItemSummary>,
    root: &ItemSummary,
    criteria_to_rules: &Vec<AnchorRelation>,
    rules_to_principles: &Vec<AnchorRelation>,
) -> (r: SortedStrings)
    ensures
        r@.to_set() == closure_criteria(items@, *root, criteria_to_rules@, rules_to_principles@),
        crate::trace::ids_sorted(r@),
{
    let ghost reach = Set::new(
        |c: Seq<char>| root_reaches(*root, criteria_to_rules@, rules_to_principles@, c),
    );
    let mut reached = SortedStrings::new();
    // The root's own criteria.
    let mut i: usize = 0;
    proof {
        assert(reached@.to_set() =~= Set::empty());
    }
    while i < root.criteria.len()
        invariant
            i <= root.criteria.len(),
            reached@.to_set() == Set::new(
                |c: Seq<char>| exists|j: int| 0 <= j < i && #[trigger] root.criteria@[j].anchor@ == c,
            ),
        decreases root.criteria.len() - i,
    {
        reached.insert(root.criteria[i].anchor.as_str());
        proof {
            assert(reached@.to_set() =~= Set::new(
                |c: Seq<char>| exists|j: int| 0 <= j < i + 1 && #[trigger] root.criteria@[j].anchor@ == c,
            ));
        }
        i = i + 1;
    }
    let ghost own = reached@.to_set();
    if str_eq(root.kind.as_str(), "feature") {
        let mut claims: Vec<ClaimedTarget> = Vec::new();
        crate::closures::push_item_claims(root, &mut claims);
        proof {
            assert(claimed_views(claims@) =~= item_claims(*root));
        }
        let mut k: usize = 0;
        while k < claims.len()
            invariant
                k <= claims.len(),
                claimed_views(claims@) == item_claims(*root),
                reached@.to_set() == own + Set::new(
                    |c: Seq<char>| exists|q: int| 0 <= q < k && claim_criterion(#[trigger] item_claims(*root)[q].1) == Some(c),
                ),
            decreases claims.len() - k,
        {
            let named = claim_criterion_exec(&claims[k]);
            proof {
                assert(item_claims(*root)[k as int] == crate::closures::claimed_view(claims@[k as int]));
            }
            let ghost before = reached@.to_set();
            if let Some(c) = named {
                reached.insert(c.as_str());
            }
            proof {
                let ic = item_claims(*root);
                assert forall|c: Seq<char>|
                    (exists|q: int| 0 <= q < k + 1 && claim_criterion(#[trigger] ic[q].1) == Some(c)) == ((exists|q: int|
                        0 <= q < k && claim_criterion(#[trigger] ic[q].1) == Some(c)) || claim_criterion(ic[k as int].1)
                        == Some(c)) by {
                    if exists|q: int| 0 <= q < k + 1 && claim_criterion(#[trigger] ic[q].1) == Some(c) {
                        let q = choose|q: int| 0 <= q < k + 1 && claim_criterion(#[trigger] ic[q].1) == Some(c);
                        if q < k {
                            assert(0 <= q < k && claim_criterion(ic[q].1) == Some(c));
                        }
                    }
                }
                assert(reached@.to_set() =~= own + Set::new(
                    |c: Seq<char>| exists|q: int| 0 <= q < k + 1 && claim_criterion(#[trigger] item_claims(*root)[q].1) == Some(c),
                ));
            }
            k = k + 1;
        }
        proof {
            reveal_strlit("feature");
            reveal_strlit("policy");
            reveal_strlit("philosophy");
            assert(claims@.len() == item_claims(*root).len());
            assert("feature"@.len() == 7 && "policy"@.len() == 6 && "philosophy"@.len() == 10);
            assert(root.kind@ != "policy"@ && root.kind@ != "philosophy"@);
            assert forall|c: Seq<char>| reached@.to_set().contains(c) == reach.contains(c) by {
                reveal_strlit("feature");
                reveal_strlit("policy");
                reveal_strlit("philosophy");
                assert(reach.contains(c) == root_reaches(*root, criteria_to_rules@, rules_to_principles@, c));
                assert(own.contains(c) == exists|j: int|
                    0 <= j < root.criteria@.len() && #[trigger] root.criteria@[j].anchor@ == c);
                let ic = item_claims(*root);
                assert(claimed_by(*root, c) == exists|q: int|
                    0 <= q < claims@.len() && claim_criterion(#[trigger] ic[q].1) == Some(c));
                assert(reached@.to_set().contains(c) == (own.contains(c) || exists|q: int|
                    0 <= q < claims@.len() && claim_criterion(#[trigger] ic[q].1) == Some(c)));
                assert(root_reaches(*root, criteria_to_rules@, rules_to_principles@, c) == (own.contains(c)
                    || claimed_by(*root, c)));
            }
            assert(reached@.to_set() =~= reach);
        }
    } else if str_eq(root.kind.as_str(), "policy") {
        let mut rules = SortedStrings::new();
        let mut j: usize = 0;
        proof {
            assert(rules@.to_set() =~= Set::empty());
        }
        while j < root.rules.len()
            invariant
                j <= root.rules.len(),
                rules@.to_set() == Set::new(
                    |a: Seq<char>| exists|q: int| 0 <= q < j && #[trigger] root.rules@[q].anchor@ == a,
                ),
            decreases root.rules.len() - j,
        {
            rules.insert(root.rules[j].anchor.as_str());
            proof {
                assert(rules@.to_set() =~= Set::new(
                    |a: Seq<char>| exists|q: int| 0 <= q < j + 1 && #[trigger] root.rules@[q].anchor@ == a,
                ));
            }
            j = j + 1;
        }
        proof {
            assert(rules@.to_set() =~= rule_anchors(*root));
        }
        insert_related(&mut reached, criteria_to_rules, &rules);
        proof {
            reveal_strlit("feature");
            reveal_strlit("policy");
            reveal_strlit("philosophy");
            assert forall|c: Seq<char>| reached@.to_set().contains(c) == reach.contains(c) by {
                reveal_strlit("feature");
                reveal_strlit("policy");
                reveal_strlit("philosophy");
                assert(reach.contains(c) == root_reaches(*root, criteria_to_rules@, rules_to_principles@, c));
                assert(own.contains(c) == exists|j: int|
                    0 <= j < root.criteria@.len() && #[trigger] root.criteria@[j].anchor@ == c);
                assert(reached@.to_set().contains(c) == (own.contains(c) || related_to_any(
                    criteria_to_rules@,
                    c,
                    rules@.to_set(),
                )));
                assert(related_to_any(criteria_to_rules@, c, rules@.to_set()) == related_to_any(
                    criteria_to_rules@,
                    c,
                    rule_anchors(*root),
                ));
            }
            assert(reached@.to_set() =~= reach);
        }
    } else if str_eq(root.kind.as_str(), "philosophy") {
        let mut principles = SortedStrings::new();
        let mut j: usize = 0;
        proof {
            assert(principles@.to_set() =~= Set::empty());
        }
        while j < root.principles.len()
            invariant
                j <= root.principles.len(),
                principles@.to_set() == Set::new(
                    |a: Seq<char>| exists|q: int| 0 <= q < j && #[trigger] root.principles@[q].anchor@ == a,
                ),
            decreases root.principles.len() - j,
        {
            principles.insert(root.principles[j].anchor.as_str());
            proof {
                assert(principles@.to_set() =~= Set::new(
                    |a: Seq<char>| exists|q: int| 0 <= q < j + 1 && #[trigger] root.principles@[q].anchor@ == a,
                ));
            }
            j = j + 1;
        }
        proof {
            assert(principles@.to_set() =~= principle_anchors(*root));
        }
        let mut governing = SortedStrings::new();
        insert_related(&mut governing, rules_to_principles, &principles);
        proof {
            assert(governing@.to_set() =~= rules_of_principles(rules_to_principles@, principle_anchors(*root)));
        }
        insert_related(&mut reached, criteria_to_rules, &governing);
        proof {
            reveal_strlit("feature");
            reveal_strlit("policy");
            reveal_strlit("philosophy");
            assert(reached@.to_set() =~= reach);
        }
    } else {
        proof {
            reveal_strlit("feature");
            reveal_strlit("policy");
            reveal_strlit("philosophy");
            assert(reached@.to_set() =~= reach);
        }
    }
    // Keep the criteria the catalog holds.
    let all = reached.to_vec();
    let mut out = SortedStrings::new();
    let mut k: usize = 0;
    proof {
        assert(out@.to_set() =~= Set::empty());
    }
    while k < all.len()
        invariant
            k <= all.len(),
            all@.map_values(|x: String| x@) == reached@,
            reached@.to_set() == reach,
            crate::trace::ids_sorted(out@),
            out@.to_set() == Set::new(
                |c: Seq<char>| reached@.take(k as int).contains(c) && in_catalog(items@, c),
            ),
        decreases all.len() - k,
    {
        let keep = catalog_has_criterion(items, all[k].as_str());
        let ghost before = out@.to_set();
        if keep {
            out.insert(all[k].as_str());
        }
        proof {
            assert(reached@[k as int] == all@[k as int]@);
            assert(reached@.take(k + 1) =~= reached@.take(k as int).push(reached@[k as int]));
            assert forall|c: Seq<char>| reached@.take(k + 1).contains(c) == (reached@.take(k as int).contains(c) || c
                == reached@[k as int]) by {
                let t1 = reached@.take(k + 1);
                let t0 = reached@.take(k as int);
                if t1.contains(c) {
                    let q = choose|q: int| 0 <= q < t1.len() && #[trigger] t1[q] == c;
                    if q < k {
                        assert(t0[q] == c);
                    }
                }
                if t0.contains(c) {
                    let q = choose|q: int| 0 <= q < t0.len() && #[trigger] t0[q] == c;
                    assert(t1[q] == c);
                }
                if c == reached@[k as int] {
                    assert(reached@.take(k + 1)[k as int] == c);
                }
            }
            assert forall|c: Seq<char>| out@.to_set().contains(c) == (reached@.take(k + 1).contains(c) && in_catalog(
                items@,
                c,
            )) by {
                assert(before.contains(c) == (reached@.take(k as int).contains(c) && in_catalog(items@, c)));
            }
            assert(out@.to_set() =~= Set::new(
                |c: Seq<char>| reached@.take(k + 1).contains(c) && in_catalog(items@, c),
            ));
        }
        k = k + 1;
    }
    proof {
        assert(reached@.take(reached@.len() as int) =~= reached@);
        assert forall|c: Seq<char>| out@.to_set().contains(c) == closure_criteria(
            items@,
            *root,
            criteria_to_rules@,
            rules_to_principles@,
        ).contains(c) by {
            assert(reached@.contains(c) == reached@.to_set().contains(c));
            assert(reach.contains(c) == root_reaches(*root, criteria_to_rules@, rules_to_principles@, c));
        }
        assert(out@.to_set() =~= closure_criteria(items@, *root, criteria_to_rules@, rules_to_principles@));
    }
    out
}

} // verus!
