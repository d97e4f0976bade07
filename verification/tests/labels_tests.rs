use mitase_workbench_server::labels::{
    binding_role_label, contract_kind_label, origin_kind_rank, priority_label, status_label,
    BindingRole, ContractKind, ItemStatus, Priority,
};
use mitase_workbench_server::work::WorkOrigin;

#[test]
fn labels_are_the_snake_case_names() {
    assert_eq!(binding_role_label(BindingRole::ContractSource), "contract_source");
    assert_eq!(binding_role_label(BindingRole::Verification), "verification");
    assert_eq!(binding_role_label(BindingRole::Evidence), "evidence");
    assert_eq!(contract_kind_label(ContractKind::Http), "http");
    assert_eq!(contract_kind_label(ContractKind::Cli), "cli");
    assert_eq!(status_label(ItemStatus::Deprecated), "deprecated");
    assert_eq!(status_label(ItemStatus::Planned), "planned");
    assert_eq!(priority_label(Priority::Critical), "critical");
    assert_eq!(priority_label(Priority::Low), "low");
}

#[test]
fn requirement_origins_rank_before_feature_origins() {
    let requirement = WorkOrigin::RequirementCriterion { criterion: "REQ-1#criterion.a".into() };
    let binding = WorkOrigin::FeatureImplementationBinding {
        binding: "FEAT-1#binding.b".into(),
        criterion: "REQ-1#criterion.a".into(),
        targets: vec![],
    };
    let target = WorkOrigin::FeatureImplementationTarget {
        target: "FEAT-1#binding.b/target.t".into(),
        binding: "FEAT-1#binding.b".into(),
        criterion: "REQ-1#criterion.a".into(),
    };
    assert_eq!(origin_kind_rank(&requirement), 0);
    assert_eq!(origin_kind_rank(&binding), 1);
    assert_eq!(origin_kind_rank(&target), 2);
}
