use mitase_workbench_server::anchors::{closure_criterion_anchors, AnchorRelation};
use mitase_workbench_server::catalog::{
    BindingSummary, BindingTargetSummary, CriterionSummary, ItemSummary, PrincipleSummary, RuleSummary,
    TargetClaim,
};

fn item(id: &str, kind: &str) -> ItemSummary {
    ItemSummary {
        id: id.into(),
        kind: kind.into(),
        path: "docs/spec.yaml".into(),
        source_hash: "sha256:0".into(),
        title: id.into(),
        presentation_title_key: None,
        summary: String::new(),
        description: None,
        status: None,
        priority: None,
        principles: vec![],
        rules: vec![],
        criteria: vec![],
        bindings: vec![],
        contracts: vec![],
        anchors: vec![],
    }
}

fn criterion(anchor: &str) -> CriterionSummary {
    CriterionSummary { anchor: anchor.into(), kind: "behavior".into(), statement: String::new(), governed_by: vec![] }
}

fn requirement() -> ItemSummary {
    let mut r = item("REQ-1", "requirement");
    r.criteria = vec![criterion("REQ-1#criterion.b"), criterion("REQ-1#criterion.a")];
    r
}

fn relation(anchor: &str, related: &[&str]) -> AnchorRelation {
    AnchorRelation { anchor: anchor.into(), related: related.iter().map(|s| s.to_string()).collect() }
}

#[test]
fn requirement_closes_over_its_own_criteria_in_order() {
    let req = requirement();
    let items = vec![req.clone()];
    let r = closure_criterion_anchors(&items, &req, &vec![], &vec![]);
    assert_eq!(r.to_vec(), vec!["REQ-1#criterion.a", "REQ-1#criterion.b"]);
}

#[test]
fn feature_closes_over_claimed_criteria_that_the_catalog_holds() {
    let mut feat = item("FEAT-1", "feature");
    feat.bindings = vec![BindingSummary {
        anchor: "FEAT-1#binding.impl".into(),
        role: "implementation".into(),
        facet: "code".into(),
        responsibility: String::new(),
        owns: vec![],
        targets: vec![BindingTargetSummary {
            reference: "FEAT-1#binding.impl/target.code".into(),
            path: "src/lib.rs".into(),
            selector: "file".into(),
            adapter: "rust".into(),
            lifecycle: "present".into(),
            claims: vec![
                TargetClaim::Satisfies { criterion: "REQ-1#criterion.a".into() },
                TargetClaim::Verifies { criterion: "REQ-9#criterion.gone".into(), covers: vec![] },
                TargetClaim::Evidences { anchor: "REQ-1#criterion.b".into() },
                TargetClaim::Evidences { anchor: "POL-1#rule.r".into() },
                TargetClaim::Documents { anchor: "REQ-1#criterion.c".into() },
            ],
        }],
    }];
    let items = vec![requirement(), feat.clone()];
    let r = closure_criterion_anchors(&items, &feat, &vec![], &vec![]);
    assert_eq!(r.to_vec(), vec!["REQ-1#criterion.a", "REQ-1#criterion.b"]);
}

#[test]
fn policy_closes_over_criteria_its_rules_govern() {
    let mut pol = item("POL-1", "policy");
    pol.rules = vec![RuleSummary {
        anchor: "POL-1#rule.r".into(),
        level: "must".into(),
        statement: String::new(),
        governed_by: vec![],
        applies_to_roles: vec![],
        enforcement: None,
    }];
    let items = vec![requirement(), pol.clone()];
    let criteria_to_rules = vec![
        relation("REQ-1#criterion.a", &["POL-1#rule.r"]),
        relation("REQ-1#criterion.b", &["POL-2#rule.other"]),
    ];
    let r = closure_criterion_anchors(&items, &pol, &criteria_to_rules, &vec![]);
    assert_eq!(r.to_vec(), vec!["REQ-1#criterion.a"]);
}

#[test]
fn philosophy_closes_over_criteria_governed_through_its_principles() {
    let mut phil = item("PHIL-1", "philosophy");
    phil.principles = vec![PrincipleSummary {
        anchor: "PHIL-1#principle.p".into(),
        statement: String::new(),
        applies_to: vec![],
    }];
    let items = vec![requirement(), phil.clone()];
    let rules_to_principles = vec![relation("POL-1#rule.r", &["PHIL-1#principle.p"])];
    let criteria_to_rules = vec![
        relation("REQ-1#criterion.b", &["POL-1#rule.r"]),
        relation("REQ-1#criterion.a", &["POL-1#rule.s"]),
    ];
    let r = closure_criterion_anchors(&items, &phil, &criteria_to_rules, &rules_to_principles);
    assert_eq!(r.to_vec(), vec!["REQ-1#criterion.b"]);
}
