use mitase_workbench_server::capabilities::{
    ambiguous_capability, capabilities_of_item, origin_capability, origin_offers, origin_owner_item,
    target_criteria, OfferBinding, OfferItem, OfferTarget, OriginOffer,
};
use mitase_workbench_server::work::WorkOrigin;

fn target(reference: Option<&str>, present: bool, satisfies: &[&str]) -> OfferTarget {
    OfferTarget {
        reference: reference.map(|r| r.to_string()),
        present,
        satisfies: satisfies.iter().map(|s| s.to_string()).collect(),
    }
}

fn describe(origin: &WorkOrigin) -> String {
    match origin {
        WorkOrigin::RequirementCriterion { criterion } => format!("criterion {criterion}"),
        WorkOrigin::FeatureImplementationBinding { binding, criterion, targets } => {
            format!("binding {binding} {criterion} [{}]", targets.join(","))
        }
        WorkOrigin::FeatureImplementationTarget { target, binding, criterion } => {
            format!("target {target} {binding} {criterion}")
        }
    }
}

fn describe_offer(offer: &OriginOffer) -> String {
    match offer {
        OriginOffer::Exact { origin, label } => format!("{label}: {}", describe(origin)),
        OriginOffer::Ambiguous { nearest } => {
            format!("ambiguous: {}", nearest.iter().map(describe).collect::<Vec<_>>().join(" | "))
        }
    }
}

fn feature(targets: Vec<OfferTarget>, role: &str) -> OfferItem {
    OfferItem {
        kind: "feature".into(),
        criteria: vec![],
        bindings: vec![OfferBinding { role: role.into(), anchor: Some("F-1#binding.b".into()), targets }],
    }
}

#[test]
fn requirement_offers_each_parsed_criterion() {
    let items = vec![OfferItem {
        kind: "requirement".into(),
        criteria: vec![Some("REQ-1#criterion.a".into()), None],
        bindings: vec![],
    }];
    let offers: Vec<String> = origin_offers(&items).iter().map(describe_offer).collect();
    assert_eq!(offers, vec!["Requirement criterion: criterion REQ-1#criterion.a"]);
}

#[test]
fn targets_are_deduplicated_and_sorted_by_reference() {
    let tc = target_criteria(&vec![
        target(Some("F-1#binding.b/target.y"), true, &["REQ-1#criterion.b", "REQ-1#criterion.a"]),
        target(Some("F-1#binding.b/target.x"), true, &["REQ-1#criterion.a"]),
        target(Some("F-1#binding.b/target.y"), true, &["REQ-9#criterion.z"]),
        target(Some("F-1#binding.b/target.w"), false, &["REQ-1#criterion.a"]),
        target(None, true, &["REQ-1#criterion.a"]),
    ]);
    let refs: Vec<&str> = tc.iter().map(|e| e.reference.as_str()).collect();
    assert_eq!(refs, vec!["F-1#binding.b/target.x", "F-1#binding.b/target.y"]);
    assert_eq!(tc[1].criteria.to_vec(), vec!["REQ-1#criterion.a", "REQ-1#criterion.b"]);
}

#[test]
fn binding_with_one_criterion_offers_binding_then_targets() {
    let items = vec![feature(
        vec![
            target(Some("F-1#binding.b/target.y"), true, &["REQ-1#criterion.a"]),
            target(Some("F-1#binding.b/target.x"), true, &["REQ-1#criterion.a"]),
            target(Some("F-1#binding.b/target.z"), true, &[]),
        ],
        "implementation",
    )];
    let offers: Vec<String> = origin_offers(&items).iter().map(describe_offer).collect();
    assert_eq!(
        offers,
        vec![
            "Feature implementation: binding F-1#binding.b REQ-1#criterion.a [F-1#binding.b/target.x,F-1#binding.b/target.y,F-1#binding.b/target.z]",
            "Implementation target: target F-1#binding.b/target.x F-1#binding.b REQ-1#criterion.a",
            "Implementation target: target F-1#binding.b/target.y F-1#binding.b REQ-1#criterion.a",
        ]
    );
}

#[test]
fn binding_with_several_criteria_is_ambiguous() {
    let items = vec![feature(
        vec![
            target(Some("F-1#binding.b/target.x"), true, &["REQ-1#criterion.b"]),
            target(Some("F-1#binding.b/target.y"), true, &["REQ-1#criterion.a"]),
        ],
        "implementation",
    )];
    let offers: Vec<String> = origin_offers(&items).iter().map(describe_offer).collect();
    assert_eq!(
        offers,
        vec![
            "Implementation target: target F-1#binding.b/target.x F-1#binding.b REQ-1#criterion.b",
            "Implementation target: target F-1#binding.b/target.y F-1#binding.b REQ-1#criterion.a",
            "ambiguous: binding F-1#binding.b REQ-1#criterion.a [F-1#binding.b/target.x,F-1#binding.b/target.y] | binding F-1#binding.b REQ-1#criterion.b [F-1#binding.b/target.x,F-1#binding.b/target.y]",
        ]
    );
}

#[test]
fn verification_bindings_and_other_items_offer_nothing() {
    let items = vec![
        feature(vec![target(Some("F-1#binding.b/target.x"), true, &["REQ-1#criterion.a"])], "verification"),
        OfferItem { kind: "policy".into(), criteria: vec![Some("POL-1#criterion.a".into())], bindings: vec![] },
    ];
    assert!(origin_offers(&items).is_empty());
}

#[test]
fn refused_origin_is_disabled_with_its_code() {
    let origin = WorkOrigin::RequirementCriterion { criterion: "REQ-1#criterion.a".into() };
    let cap = origin_capability("schema", origin, "Requirement criterion", Some("criterion is unknown".into()));
    assert!(!cap.enabled);
    assert!(cap.origin.is_none());
    assert_eq!(cap.disabled_code.as_deref(), Some("unknown-origin"));
    assert_eq!(cap.disabled_message.as_deref(), Some("criterion is unknown"));
    assert_eq!(cap.nearest.len(), 1);
    let ok = origin_capability(
        "schema",
        WorkOrigin::RequirementCriterion { criterion: "REQ-1#criterion.a".into() },
        "Requirement criterion",
        None,
    );
    assert!(ok.enabled);
    assert!(ok.nearest.is_empty());
    let amb = ambiguous_capability("schema", vec![]);
    assert_eq!(amb.disabled_code.as_deref(), Some("ambiguous-origin"));
}

#[test]
fn capabilities_belong_to_the_item_of_their_origin() {
    let a = WorkOrigin::RequirementCriterion { criterion: "REQ-1#criterion.a".into() };
    assert_eq!(origin_owner_item(&a), "REQ-1");
    let b = WorkOrigin::FeatureImplementationTarget {
        target: "F-2#binding.b/target.t".into(),
        binding: "F-2#binding.b".into(),
        criterion: "REQ-1#criterion.a".into(),
    };
    assert_eq!(origin_owner_item(&b), "F-2");
    let caps = vec![
        origin_capability("s", a, "Requirement criterion", None),
        origin_capability("s", b, "Implementation target", Some("no exact satisfies".into())),
        ambiguous_capability("s", vec![]),
    ];
    assert_eq!(capabilities_of_item(&caps, "F-2"), vec![1]);
    assert_eq!(capabilities_of_item(&caps, "REQ-1"), vec![0]);
}
