use mitase_workbench_server::anchors::AnchorRelation;
use mitase_workbench_server::impact::{
    changed_specification_anchors, edit_impact, ArtifactOwner, ArtifactOwners, EditScope, ImpactIndex, NestedScope,
    TargetArtifact,
};
use mitase_workbench_server::sorted::SortedStrings;

fn relation(anchor: &str, related: &[&str]) -> AnchorRelation {
    AnchorRelation { anchor: anchor.into(), related: related.iter().map(|s| s.to_string()).collect() }
}

fn index() -> ImpactIndex {
    let mut anchors = SortedStrings::new();
    anchors.insert("REQ-1#criterion.a");
    ImpactIndex {
        anchors,
        item_anchors: vec![relation("REQ-2", &["REQ-2#criterion.x", "REQ-2"])],
        criteria_to_implementation_targets: vec![relation("REQ-1#criterion.a", &["F#binding.impl/target.a"])],
        criteria_to_verification_targets: vec![relation("REQ-1#criterion.a", &["F#binding.test/target.t"])],
        target_to_artifact: vec![TargetArtifact { target: "F#binding.impl/target.a".into(), artifact: "art-1".into() }],
        artifact_owners: vec![ArtifactOwners {
            artifact: "art-1".into(),
            owners: vec![ArtifactOwner { binding: "F#binding.impl".into(), scope_id: "core".into() }],
        }],
    }
}

#[test]
fn anchor_edit_reaches_targets_and_ownership() {
    let impact = edit_impact(&index(), &EditScope::Anchor { anchor: "REQ-1#criterion.a".into() }, false);
    assert_eq!(impact.changed_anchors, vec!["REQ-1#criterion.a"]);
    assert_eq!(impact.affected_items, vec!["REQ-1"]);
    assert_eq!(impact.implementation_targets, vec!["F#binding.impl/target.a"]);
    assert_eq!(impact.verification_targets, vec!["F#binding.test/target.t"]);
    assert_eq!(impact.affected_ownership, vec!["F#binding.impl#core"]);
    assert!(impact.work.seedable);
    assert_eq!(impact.work.reason, "Explicit implementation targets are available for review.");
}

#[test]
fn nested_target_edit_changes_the_item_binding_and_target() {
    let patch = EditScope::Nested {
        item_id: "F".into(),
        edit: NestedScope::Target { binding_id: "impl".into(), target_id: "a".into() },
    };
    let changed = changed_specification_anchors(&index(), &patch).to_vec();
    assert_eq!(changed, vec!["F", "F#binding.impl", "F#binding.impl/target.a"]);
    let impact = edit_impact(&index(), &patch, true);
    assert_eq!(impact.affected_items, vec!["F"]);
    assert!(impact.implementation_targets.is_empty());
    assert!(impact.work.requires_replan);
    assert_eq!(impact.work.reason, "Existing work plan must be reviewed after a specification change.");
}

#[test]
fn added_criterion_counts_only_when_the_index_resolves_it() {
    let known = EditScope::AddCriterion { requirement_id: "REQ-1".into(), criterion_id: "a".into() };
    assert_eq!(changed_specification_anchors(&index(), &known).to_vec(), vec!["REQ-1#criterion.a"]);
    let unknown = EditScope::AddCriterion { requirement_id: "REQ-1".into(), criterion_id: "b".into() };
    let impact = edit_impact(&index(), &unknown, false);
    assert!(impact.changed_anchors.is_empty());
    assert_eq!(impact.affected_items, vec!["REQ-1"]);
    assert!(!impact.work.seedable);
    assert_eq!(impact.work.reason, "No explicit implementation target is attached to this candidate yet.");
}

#[test]
fn created_items_change_their_anchors() {
    let impact = edit_impact(&index(), &EditScope::CreateRequirement { id: "REQ-2".into() }, false);
    assert_eq!(impact.changed_anchors, vec!["REQ-2", "REQ-2#criterion.x"]);
    assert_eq!(impact.affected_items, vec!["REQ-2"]);
    let other = edit_impact(&index(), &EditScope::Other, false);
    assert!(other.changed_anchors.is_empty());
    assert!(other.affected_items.is_empty());
}

#[test]
fn nested_ownership_and_contract_anchors() {
    let own = EditScope::Nested {
        item_id: "F".into(),
        edit: NestedScope::Ownership { binding_id: "impl".into(), ownership_id: "core".into() },
    };
    assert_eq!(
        changed_specification_anchors(&index(), &own).to_vec(),
        vec!["F", "F#binding.impl", "F#binding.impl/owns.core"]
    );
    let contract = EditScope::Nested { item_id: "F".into(), edit: NestedScope::Contract { contract_id: "c".into() } };
    assert_eq!(changed_specification_anchors(&index(), &contract).to_vec(), vec!["F", "F#contract.c"]);
}
