//! The specification a work journey is about: the one criterion its request
//! names, and the item that states it.
use vstd::prelude::*;
use crate::capabilities::{item_of_anchor, item_part};
use crate::catalog::{CriterionSummary, ItemSummary};
use crate::journey::{
    journey_counts_fit, journey_view, spec_journey_view, JourneyAdvancedView, JourneyInput, JourneySpecificationView,
    WorkJourneyView,
};
use crate::suggestions::RequestTarget;
use crate::text::{chars_of, is_unicode_whitespace, is_whitespace_exec, owned, str_eq};
use crate::work::WorkOrigin;

verus! {

/// What the journey reads of a work request: its origin and the exact
/// targets it asks for.
#[derive(Debug, Clone)]
pub struct WorkRequestScope {
    pub origin: WorkOrigin,
    pub requested_targets: Vec<RequestTarget>,
}

/// The criterion a work origin starts from.
pub open spec fn origin_criterion(o: WorkOrigin) -> Seq<char> {
    match o {
        WorkOrigin::RequirementCriterion { criterion } => criterion@,
        WorkOrigin::FeatureImplementationBinding { criterion, .. } => criterion@,
        WorkOrigin::FeatureImplementationTarget { criterion, .. } => criterion@,
    }
}

/// Every requested target that names a criterion names the origin's.
pub open spec fn one_criterion(q: WorkRequestScope) -> bool {
    forall|k: int|
        0 <= k < q.requested_targets@.len() ==> match #[trigger] q.requested_targets@[k].criterion {
            Some(c) => c@ == origin_criterion(q.origin),
            None => true,
        }
}

/// The first item with id `id`.
pub open spec fn first_item(items: Seq<ItemSummary>, id: Seq<char>) -> Option<int>
    decreases items.len(),
{
    if items.len() == 0 {
        None
    } else {
        match first_item(items.drop_last(), id) {
            Some(i) => Some(i),
            None => if items.last().id@ == id {
                Some(items.len() - 1)
            } else {
                None
            },
        }
    }
}

/// The first criterion with anchor `anchor`.
pub open spec fn first_criterion(cs: Seq<CriterionSummary>, anchor: Seq<char>) -> Option<int>
    decreases cs.len(),
{
    if cs.len() == 0 {
        None
    } else {
        match first_criterion(cs.drop_last(), anchor) {
            Some(i) => Some(i),
            None => if cs.last().anchor@ == anchor {
                Some(cs.len() - 1)
            } else {
                None
            },
        }
    }
}

/// Text that is empty or white space only.
pub open spec fn blank(s: Seq<char>) -> bool {
    forall|i: int| 0 <= i < s.len() ==> is_unicode_whitespace(#[trigger] s[i])
}

/// An item's overview: its summary, or its description when the summary
/// is blank.
pub open spec fn overview(item: ItemSummary) -> Seq<char> {
    if blank(item.summary@) {
        match item.description {
            Some(d) => d@,
            None => Seq::empty(),
        }
    } else {
        item.summary@
    }
}

/// The journey's specification as values (title, overview, status,
/// criterion statement) with the criterion's anchor; `None` when the request
/// names more than one criterion, or the criterion's item or the criterion
/// itself is not among `items`.
pub open spec fn specification_context(items: Seq<ItemSummary>, q: WorkRequestScope) -> Option<
    (Seq<char>, Seq<char>, Option<Seq<char>>, Seq<char>, Seq<char>),
> {
    let anchor = origin_criterion(q.origin);
    if !one_criterion(q) {
        None
    } else {
        match first_item(items, item_part(anchor)) {
            None => None,
            Some(i) => match first_criterion(items[i].criteria@, anchor) {
                None => None,
                Some(j) => Some(
                    (
                        items[i].title@,
                        overview(items[i]),
                        match items[i].status {
                            Some(s) => Some(s@),
                            None => None,
                        },
                        items[i].criteria@[j].statement@,
                        anchor,
                    ),
                ),
            },
        }
    }
}

pub open spec fn context_view(r: (JourneySpecificationView, String)) -> (
    Seq<char>,
    Seq<char>,
    Option<Seq<char>>,
    Seq<char>,
    Seq<char>,
) {
    (
        r.0.title@,
        r.0.overview@,
        match r.0.status {
            Some(s) => Some(s@),
            None => None,
        },
        r.0.criterion_statement@,
        r.1@,
    )
}

fn criterion_of(o: &WorkOrigin) -> (r: &String)
    ensures
        r@ == origin_criterion(*o),
{
    match o {
        WorkOrigin::RequirementCriterion { criterion } => criterion,
        WorkOrigin::FeatureImplementationBinding { criterion, .. } => criterion,
        WorkOrigin::FeatureImplementationTarget { criterion, .. } => criterion,
    }
}

fn find_item(items: &Vec<ItemSummary>, id: &str) -> (r: Option<usize>)
    ensures
        match r {
            Some(i) => first_item(items@, id@) == Some(i as int) && i < items@.len(),
            None => first_item(items@, id@) is None,
        },
{
    let mut k: usize = 0;
    while k < items.len()
        invariant
            k <= items.len(),
            first_item(items@.take(k as int), id@) is None,
        decreases items.len() - k,
    {
        proof {
            assert(items@.take(k + 1).drop_last() =~= items@.take(k as int));
            assert(items@.take(k + 1).last() == items@[k as int]);
        }
        if str_eq(items[k].id.as_str(), id) {
            proof {
                lemma_item_prefix(items@, id@, k + 1);
            }
            return Some(k);
        }
        k = k + 1;
    }
    proof {
        assert(items@.take(items@.len() as int) =~= items@);
    }
    None
}

proof fn lemma_item_prefix(items: Seq<ItemSummary>, id: Seq<char>, k: int)
    requires
        0 <= k <= items.len(),
        first_item(items.take(k), id) is Some,
    ensures
        first_item(items, id) == first_item(items.take(k), id),
    decreases items.len() - k,
{
    if k < items.len() {
        assert(items.take(k + 1).drop_last() =~= items.take(k));
        lemma_item_prefix(items, id, k + 1);
    } else {
        assert(items.take(k) =~= items);
    }
}

fn find_criterion(cs: &Vec<CriterionSummary>, anchor: &str) -> (r: Option<usize>)
    ensures
        match r {
            Some(i) => first_criterion(cs@, anchor@) == Some(i as int) && i < cs@.len(),
            None => first_criterion(cs@, anchor@) is None,
        },
{
    let mut k: usize = 0;
    while k < cs.len()
        invariant
            k <= cs.len(),
            first_criterion(cs@.take(k as int), anchor@) is None,
        decreases cs.len() - k,
    {
        proof {
            assert(cs@.take(k + 1).drop_last() =~= cs@.take(k as int));
            assert(cs@.take(k + 1).last() == cs@[k as int]);
        }
        if str_eq(cs[k].anchor.as_str(), anchor) {
            proof {
                lemma_criterion_prefix(cs@, anchor@, k + 1);
            }
            return Some(k);
        }
        k = k + 1;
    }
    proof {
        assert(cs@.take(cs@.len() as int) =~= cs@);
    }
    None
}

proof fn lemma_criterion_prefix(cs: Seq<CriterionSummary>, anchor: Seq<char>, k: int)
    requires
        0 <= k <= cs.len(),
        first_criterion(cs.take(k), anchor) is Some,
    ensures
        first_criterion(cs, anchor) == first_criterion(cs.take(k), anchor),
    decreases cs.len() - k,
{
    if k < cs.len() {
        assert(cs.take(k + 1).drop_last() =~= cs.take(k));
        lemma_criterion_prefix(cs, anchor, k + 1);
    } else {
        assert(cs.take(k) =~= cs);
    }
}

fn is_blank(s: &str) -> (r: bool)
    ensures
        r == blank(s@),
{
    let cs = chars_of(s);
    let mut i: usize = 0;
    while i < cs.len()
        invariant
            i <= cs.len(),
            cs@ == s@,
            forall|j: int| 0 <= j < i ==> is_unicode_whitespace(#[trigger] cs@[j]),
        decreases cs.len() - i,
    {
        if !is_whitespace_exec(cs[i]) {
            return false;
        }
        i = i + 1;
    }
    true
}

/// The specification the journey shows for a request that names exactly
/// one criterion: the title, overview and status of the criterion's item,
/// the criterion's statement, and the criterion's anchor.
pub fn journey_specification_context(items: &Vec<ItemSummary>, request: Option<&WorkRequestScope>) -> (r:
    Option<(JourneySpecificationView, String)>)
    ensures
        match request {
            None => r is None,
            Some(q) => match r {
                Some(v) => specification_context(items@, *q) == Some(context_view(v)),
                None => specification_context(items@, *q) is None,
            },
        },
{
    let q = match request {
        Some(q) => q,
        None => {
            return None;
        },
    };
    let anchor = criterion_of(&q.origin);
    let mut k: usize = 0;
    while k < q.requested_targets.len()
        invariant
            k <= q.requested_targets.len(),
            request == Some(q),
            anchor@ == origin_criterion(q.origin),
            forall|j: int|
                0 <= j < k ==> match #[trigger] q.requested_targets@[j].criterion {
                    Some(c) => c@ == origin_criterion(q.origin),
                    None => true,
                },
        decreases q.requested_targets.len() - k,
    {
        match &q.requested_targets[k].criterion {
            Some(c) => {
                if !str_eq(c.as_str(), anchor.as_str()) {
                    proof {
                        let t = q.requested_targets@[k as int];
                        assert(t.criterion == Some(*c));
                        assert(!one_criterion(*q));
                    }
                    return None;
                }
            },
            None => {},
        }
        k = k + 1;
    }
    let item_id = item_of_anchor(anchor.as_str());
    let i = match find_item(items, item_id.as_str()) {
        Some(i) => i,
        None => {
            return None;
        },
    };
    let item = &items[i];
    let j = match find_criterion(&item.criteria, anchor.as_str()) {
        Some(j) => j,
        None => {
            return None;
        },
    };
    let overview_text = if is_blank(item.summary.as_str()) {
        match &item.description {
            Some(d) => owned(d.as_str()),
            None => String::new(),
        }
    } else {
        owned(item.summary.as_str())
    };
    let status = match &item.status {
        Some(s) => Some(owned(s.as_str())),
        None => None,
    };
    let view = JourneySpecificationView {
        title: owned(item.title.as_str()),
        overview: overview_text,
        status,
        criterion_statement: owned(item.criteria[j].statement.as_str()),
    };
    Some((view, owned(anchor.as_str())))
}

/// `h` is the journey heading of a work request: the session's title, else
/// the request's; the specification context of the request's criterion in
/// the catalog, with its anchor, when there is one; and the identifiers of
/// the request, its plan and the selected slice, with no attempt yet.
pub open spec fn heading_of(
    h: (String, Option<JourneySpecificationView>, JourneyAdvancedView),
    items: Seq<ItemSummary>,
    request: WorkRequestScope,
    session_title: Option<String>,
    request_title: String,
    request_id: String,
    plan_id: Option<String>,
    selected_slice_id: Option<String>,
) -> bool {
    &&& h.0 == (match session_title {
        Some(t) => t,
        None => request_title,
    })
    &&& match specification_context(items, request) {
        Some(c) => h.1 matches Some(v) && h.2.specification_anchor matches Some(a) && context_view((v, a)) == c,
        None => h.1 is None && h.2.specification_anchor is None,
    }
    &&& h.2.request_id == Some(request_id)
    &&& h.2.plan_id == plan_id
    &&& h.2.selected_slice_id == selected_slice_id
    &&& h.2.attempt_id is None
}

/// What the journey shows of a work request before its stage is decided:
/// the title (the session's title, else the request's), the specification
/// the request names, and the identifiers of the request, its plan, the
/// selected slice and the specification anchor (no attempt yet).
pub fn journey_heading(
    items: &Vec<ItemSummary>,
    request: &WorkRequestScope,
    session_title: Option<String>,
    request_title: String,
    request_id: String,
    plan_id: Option<String>,
    selected_slice_id: Option<String>,
) -> (r: (String, Option<JourneySpecificationView>, JourneyAdvancedView))
    ensures
        heading_of(r, items@, *request, session_title, request_title, request_id, plan_id, selected_slice_id),
{
    let title = match session_title {
        Some(t) => t,
        None => request_title,
    };
    let (related, anchor) = match journey_specification_context(items, Some(request)) {
        Some((v, a)) => (Some(v), Some(a)),
        None => (None, None),
    };
    let advanced = JourneyAdvancedView {
        request_id: Some(request_id),
        plan_id,
        selected_slice_id,
        attempt_id: None,
        specification_anchor: anchor,
    };
    (title, related, advanced)
}

/// The journey of the session's work request: its heading (`heading_of`:
/// the title, the related specification and the identifiers) from the
/// session, the request and the catalog; the rest from `input`. Once work
/// is requested, the journey's title is the session's title, else the
/// request's.
pub fn session_journey_view(
    items: &Vec<ItemSummary>,
    request: &WorkRequestScope,
    session_title: Option<String>,
    request_title: String,
    request_id: String,
    plan_id: Option<String>,
    selected_slice_id: Option<String>,
    input: JourneyInput,
) -> (r: WorkJourneyView)
    requires
        journey_counts_fit(input),
    ensures
        input.has_request ==> r.title@ == (match session_title {
            Some(t) => t@,
            None => request_title@,
        }),
        exists|heading: (String, Option<JourneySpecificationView>, JourneyAdvancedView)|
            {
                &&& heading_of(
                    heading,
                    items@,
                    *request,
                    session_title,
                    request_title,
                    request_id,
                    plan_id,
                    selected_slice_id,
                )
                &&& r@ == spec_journey_view(
                    (JourneyInput { title: heading.0, related_specification: heading.1, advanced: heading.2, ..input }),
                )
            },
{
    let (title, related, advanced) = journey_heading(
        items,
        request,
        session_title,
        request_title,
        request_id,
        plan_id,
        selected_slice_id,
    );
    let ghost heading = (title, related, advanced);
    let full = JourneyInput { title, related_specification: related, advanced, ..input };
    proof {
        assert(full == (JourneyInput { title: heading.0, related_specification: heading.1, advanced: heading.2, ..input }));
    }
    journey_view(full)
}

} // verus!
