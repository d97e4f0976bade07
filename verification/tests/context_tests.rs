use mitase_workbench_server::catalog::{CriterionSummary, ItemSummary};
use mitase_workbench_server::context::{
    journey_heading, journey_specification_context, session_journey_view, WorkRequestScope,
};
use mitase_workbench_server::journey::{JourneyAdvancedView, JourneyInput};
use mitase_workbench_server::selection::TargetTransition;
use mitase_workbench_server::suggestions::RequestTarget;
use mitase_workbench_server::work::WorkOrigin;

fn item(summary: &str, description: Option<&str>) -> ItemSummary {
    ItemSummary {
        id: "REQ-1".into(),
        kind: "requirement".into(),
        path: "docs/req.yaml".into(),
        source_hash: "sha256:0".into(),
        title: "Login".into(),
        presentation_title_key: None,
        summary: summary.into(),
        description: description.map(str::to_string),
        status: Some("implemented".into()),
        priority: None,
        principles: vec![],
        rules: vec![],
        criteria: vec![CriterionSummary {
            anchor: "REQ-1#criterion.a".into(),
            kind: "acceptance".into(),
            statement: "Users can log in".into(),
            governed_by: vec![],
        }],
        bindings: vec![],
        contracts: vec![],
        anchors: vec![],
    }
}

fn request(criterion: &str, target_criteria: &[Option<&str>]) -> WorkRequestScope {
    WorkRequestScope {
        origin: WorkOrigin::RequirementCriterion { criterion: criterion.into() },
        requested_targets: target_criteria
            .iter()
            .map(|c| RequestTarget {
                reference: "file:src/login.rs".into(),
                criterion: c.map(str::to_string),
                transition: TargetTransition::Modify,
            })
            .collect(),
    }
}

#[test]
fn context_shows_the_one_criterion_of_the_request() {
    let items = vec![item("Sign in", Some("Longer text"))];
    let q = request("REQ-1#criterion.a", &[Some("REQ-1#criterion.a"), None]);
    let (view, anchor) = journey_specification_context(&items, Some(&q)).unwrap();
    assert_eq!(anchor, "REQ-1#criterion.a");
    assert_eq!(view.title, "Login");
    assert_eq!(view.overview, "Sign in");
    assert_eq!(view.status.as_deref(), Some("implemented"));
    assert_eq!(view.criterion_statement, "Users can log in");
}

#[test]
fn context_uses_the_description_when_the_summary_is_blank() {
    let items = vec![item(" \t", Some("Longer text"))];
    let q = request("REQ-1#criterion.a", &[]);
    let (view, _) = journey_specification_context(&items, Some(&q)).unwrap();
    assert_eq!(view.overview, "Longer text");
    let items = vec![item("", None)];
    let (view, _) = journey_specification_context(&items, Some(&q)).unwrap();
    assert_eq!(view.overview, "");
}

#[test]
fn context_is_absent_for_several_criteria_or_unknown_anchors() {
    let items = vec![item("Sign in", None)];
    assert!(journey_specification_context(&items, None).is_none());
    let two = request("REQ-1#criterion.a", &[Some("REQ-1#criterion.b")]);
    assert!(journey_specification_context(&items, Some(&two)).is_none());
    let unknown_item = request("REQ-2#criterion.a", &[]);
    assert!(journey_specification_context(&items, Some(&unknown_item)).is_none());
    let unknown_criterion = request("REQ-1#criterion.z", &[]);
    assert!(journey_specification_context(&items, Some(&unknown_criterion)).is_none());
}

#[test]
fn heading_prefers_the_session_title_and_carries_the_identifiers() {
    let items = vec![item("Sign in", None)];
    let q = request("REQ-1#criterion.a", &[]);
    let (title, related, advanced) = journey_heading(
        &items,
        &q,
        Some("My work".into()),
        "Request title".into(),
        "work-1".into(),
        Some("plan-1".into()),
        None,
    );
    assert_eq!(title, "My work");
    assert_eq!(related.unwrap().criterion_statement, "Users can log in");
    assert_eq!(advanced.request_id.as_deref(), Some("work-1"));
    assert_eq!(advanced.plan_id.as_deref(), Some("plan-1"));
    assert_eq!(advanced.specification_anchor.as_deref(), Some("REQ-1#criterion.a"));
    assert!(advanced.attempt_id.is_none());
    let (title, related, advanced) =
        journey_heading(&items, &request("REQ-9#criterion.a", &[]), None, "Request title".into(), "w".into(), None, None);
    assert_eq!(title, "Request title");
    assert!(related.is_none());
    assert!(advanced.specification_anchor.is_none());
}

fn journey_input(has_request: bool) -> JourneyInput {
    JourneyInput {
        has_request,
        agent: None,
        title: "ignored".into(),
        related_specification: None,
        advanced: JourneyAdvancedView {
            request_id: None,
            plan_id: None,
            selected_slice_id: None,
            attempt_id: None,
            specification_anchor: None,
        },
        plan: None,
        split_recovery: None,
        approved: false,
        validation_passed: false,
        completed: None,
    }
}

#[test]
fn the_session_journey_is_titled_by_the_session_else_the_request() {
    let items = vec![item("Sign in", None)];
    let q = request("REQ-1#criterion.a", &[]);
    let v = session_journey_view(
        &items,
        &q,
        Some("My work".into()),
        "Request title".into(),
        "work-1".into(),
        None,
        None,
        journey_input(true),
    );
    assert_eq!(v.title, "My work");
    assert_eq!(v.advanced.request_id.as_deref(), Some("work-1"));
    assert!(v.related_specification.is_some());
    let v = session_journey_view(&items, &q, None, "Request title".into(), "w".into(), None, None, journey_input(true));
    assert_eq!(v.title, "Request title");
}
