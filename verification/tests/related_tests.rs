use mitase_workbench_server::catalog::{BindingSummary, BindingTargetSummary, ItemSummary, TargetClaim};
use mitase_workbench_server::related::specification_related;
use mitase_workbench_server::sorted::SortedStrings;

fn item(id: &str, kind: &str, bindings: Vec<BindingSummary>) -> ItemSummary {
    ItemSummary {
        id: id.into(),
        kind: kind.into(),
        path: "docs/spec.yaml".into(),
        source_hash: "sha256:0".into(),
        title: format!("{id} title"),
        presentation_title_key: None,
        summary: String::new(),
        description: None,
        status: None,
        priority: None,
        principles: vec![],
        rules: vec![],
        criteria: vec![],
        bindings,
        contracts: vec![],
        anchors: vec![],
    }
}

fn target(reference: &str, claims: Vec<TargetClaim>) -> BindingTargetSummary {
    BindingTargetSummary {
        reference: reference.into(),
        path: "src/lib.rs".into(),
        selector: "file".into(),
        adapter: "rust".into(),
        lifecycle: "present".into(),
        claims,
    }
}

fn binding(anchor: &str, role: &str, targets: Vec<BindingTargetSummary>) -> BindingSummary {
    BindingSummary {
        anchor: anchor.into(),
        role: role.into(),
        facet: "code".into(),
        responsibility: String::new(),
        owns: vec![],
        targets,
    }
}

fn satisfies(c: &str) -> TargetClaim {
    TargetClaim::Satisfies { criterion: c.into() }
}

fn catalog() -> Vec<ItemSummary> {
    vec![
        item("REQ-1", "requirement", vec![]),
        item(
            "FEAT-1",
            "feature",
            vec![
                binding(
                    "FEAT-1#binding.impl",
                    "implementation",
                    vec![
                        target(
                            "FEAT-1#binding.impl/target.z",
                            vec![satisfies("REQ-1#criterion.a"), TargetClaim::Documents { anchor: "X#principle.p".into() }],
                        ),
                        target("FEAT-1#binding.impl/target.b", vec![satisfies("REQ-1#criterion.a")]),
                    ],
                ),
                binding(
                    "FEAT-1#binding.test",
                    "verification",
                    vec![target(
                        "FEAT-1#binding.test/target.t",
                        vec![TargetClaim::Verifies { criterion: "REQ-1#criterion.a".into(), covers: vec!["x".into()] }],
                    )],
                ),
            ],
        ),
        item(
            "FEAT-2",
            "feature",
            vec![binding(
                "FEAT-2#binding.impl",
                "implementation",
                vec![target("FEAT-2#binding.impl/target.a", vec![satisfies("REQ-9#criterion.q")])],
            )],
        ),
    ]
}

fn criteria() -> SortedStrings {
    let mut s = SortedStrings::new();
    s.insert("REQ-1#criterion.a");
    s
}

#[test]
fn related_targets_are_split_and_ordered_by_reference() {
    let items = catalog();
    let related = specification_related(&items, &items[0], &criteria(), 8);
    let specs: Vec<&str> = related.specification.iter().map(|s| s.item_id.as_str()).collect();
    assert_eq!(specs, vec!["FEAT-1"]);
    let implementation: Vec<&str> = related.implementation.iter().map(|e| e.target.reference.as_str()).collect();
    assert_eq!(implementation, vec!["FEAT-1#binding.impl/target.b", "FEAT-1#binding.impl/target.z"]);
    let verification: Vec<&str> = related.verification.iter().map(|e| e.target.reference.as_str()).collect();
    assert_eq!(verification, vec!["FEAT-1#binding.test/target.t"]);
    assert_eq!(related.hidden_count, 0);
    assert_eq!(related.hidden_claim_count, 0);
    assert_eq!(related.implementation[1].target.claims.len(), 2);
}

#[test]
fn budget_bounds_claims_and_entries() {
    let items = catalog();
    let related = specification_related(&items, &items[0], &criteria(), 1);
    assert_eq!(related.specification.len(), 1);
    assert!(related.implementation.is_empty());
    assert!(related.verification.is_empty());
    assert_eq!(related.hidden_count, 3);
    assert_eq!(related.hidden_claim_count, 1);
    let related = specification_related(&items, &items[0], &criteria(), 3);
    assert_eq!(related.implementation.len(), 2);
    assert_eq!(related.verification.len(), 0);
    assert_eq!(related.hidden_count, 1);
}

#[test]
fn the_root_itself_is_not_a_related_specification() {
    let items = catalog();
    let related = specification_related(&items, &items[1], &criteria(), 8);
    assert!(related.specification.is_empty());
    assert_eq!(related.implementation.len(), 2);
}
