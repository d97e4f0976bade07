use mitase_workbench_server::catalog::builtin_presentation_title_key;

#[test]
fn semantic_projection_uses_serde_enum_labels_and_exact_builtin_title_identity() {
    assert_eq!(
        builtin_presentation_title_key("REQ-CAPABILITY-001", "Canonical capability behavior"),
        Some("specification.title.REQ-CAPABILITY-001".into())
    );
    assert_eq!(builtin_presentation_title_key("REQ-CAPABILITY-001", "User-edited capability title"), None);
    assert_eq!(builtin_presentation_title_key("REQ-OTHER-001", "Canonical capability behavior"), None);
}
