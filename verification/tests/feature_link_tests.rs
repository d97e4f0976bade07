use mitase_workbench_server::catalog::{CriterionSummary, ItemSummary};
use mitase_workbench_server::feature_link::{validate_feature_criterion_link, AnchorParts, FeatureLinkPatch};

fn item(id: &str, kind: &str, status: Option<&str>) -> ItemSummary {
    ItemSummary {
        id: id.into(),
        kind: kind.into(),
        path: "docs/spec.yaml".into(),
        source_hash: "sha256:0".into(),
        title: id.into(),
        presentation_title_key: None,
        summary: String::new(),
        description: None,
        status: status.map(|s| s.to_string()),
        priority: None,
        principles: vec![],
        rules: vec![],
        criteria: vec![],
        bindings: vec![],
        contracts: vec![],
        anchors: vec![],
    }
}

fn catalog() -> Vec<ItemSummary> {
    let mut req = item("REQ-1", "requirement", Some("implemented"));
    req.criteria = vec![CriterionSummary {
        anchor: "REQ-1#criterion.a".into(),
        kind: "behavior".into(),
        statement: String::new(),
        governed_by: vec![],
    }];
    vec![
        req,
        item("REQ-OLD", "requirement", Some("deprecated")),
        item("FEAT-P", "feature", Some("planned")),
        item("FEAT-I", "feature", Some("implemented")),
    ]
}

fn parsed(item: &str, kind: &str) -> Result<AnchorParts, String> {
    Ok(AnchorParts { item: item.into(), kind: kind.into() })
}

fn create(anchor: Option<&str>, has_target: bool, status: Option<&str>) -> FeatureLinkPatch {
    FeatureLinkPatch::CreateFeature {
        criterion_anchor: anchor.map(|a| a.to_string()),
        has_target,
        status: status.map(|s| s.to_string()),
    }
}

fn add(anchor: &str, feature: &str) -> FeatureLinkPatch {
    FeatureLinkPatch::AddFeatureTarget { criterion_anchor: anchor.into(), feature_id: feature.into() }
}

fn check(patch: FeatureLinkPatch, p: Result<AnchorParts, String>) -> Result<(), String> {
    validate_feature_criterion_link(&catalog(), &patch, &p)
}

#[test]
fn feature_creation_links_criterion_and_target_together() {
    let ok = parsed("REQ-1", "criterion");
    assert_eq!(check(create(None, false, None), ok.clone()), Ok(()));
    assert_eq!(
        check(create(Some("REQ-1#criterion.a"), false, None), ok.clone()),
        Err("a Feature must declare an exact Requirement Criterion and planned target together".into())
    );
    assert_eq!(
        check(create(None, false, Some("implemented")), ok.clone()),
        Err("a Feature target must remain planned until its WorkRequest is approved and finalized".into())
    );
    assert_eq!(check(create(Some("REQ-1#criterion.a"), true, Some("planned")), ok.clone()), Ok(()));
}

#[test]
fn the_link_must_reach_an_exact_active_requirement_criterion() {
    let link = || create(Some("REQ-1#criterion.a"), true, None);
    assert_eq!(
        check(link(), Err("bad anchor".into())),
        Err("invalid feature criterion anchor: bad anchor".into())
    );
    assert_eq!(
        check(link(), parsed("REQ-1", "rule")),
        Err("feature journey link must point to an exact Requirement Criterion".into())
    );
    assert_eq!(
        check(link(), parsed("REQ-9", "criterion")),
        Err("feature journey link references an unknown Requirement".into())
    );
    assert_eq!(
        check(create(Some("REQ-OLD#criterion.a"), true, None), parsed("REQ-OLD", "criterion")),
        Err("feature journey link must reference an active Requirement".into())
    );
    assert_eq!(
        check(create(Some("REQ-1#criterion.b"), true, None), parsed("REQ-1", "criterion")),
        Err("feature journey link must reference an exact existing Criterion".into())
    );
}

#[test]
fn target_additions_need_a_planned_feature() {
    let ok = || parsed("REQ-1", "criterion");
    assert_eq!(check(add("REQ-1#criterion.a", "FEAT-P"), ok()), Ok(()));
    assert_eq!(
        check(add("REQ-1#criterion.a", "FEAT-X"), ok()),
        Err("Feature target addition references an unknown Feature".into())
    );
    assert_eq!(
        check(add("REQ-1#criterion.a", "REQ-1"), ok()),
        Err("Feature target addition must reference an active Feature".into())
    );
    assert_eq!(
        check(add("REQ-1#criterion.a", "FEAT-I"), ok()),
        Err(
            "Feature target addition requires a planned Feature; implemented Features need an explicit lifecycle transition"
                .into()
        )
    );
    assert_eq!(check(FeatureLinkPatch::Other, Err("ignored".into())), Ok(()));
}
