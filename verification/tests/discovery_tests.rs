use mitase_workbench_server::candidates::matching_discovery_concepts;
use mitase_workbench_server::discovery::{
    ascii_tokens, candidate_field_weight, discovery_query_exact_matches, discovery_query_matches,
    discovery_term_matches,
};

#[test]
fn ascii_tokens_split_on_non_alphanumerics() {
    assert_eq!(
        ascii_tokens("Update the auth-flow, v2!"),
        vec!["Update", "the", "auth", "flow", "v2"]
    );
    assert!(ascii_tokens("").is_empty());
    assert!(ascii_tokens("--- !!").is_empty());
    assert_eq!(ascii_tokens("検証test"), vec!["test"]);
}

#[test]
fn glossary_terms_match_whole_ascii_words() {
    assert!(discovery_term_matches("Verify the login", "verify"));
    assert!(!discovery_term_matches("verifying the login", "verify"));
    assert!(discovery_term_matches("ログインの検証", "検証"));
    assert!(!discovery_term_matches("contest entry", "test"));
}

#[test]
fn query_matches_ignore_case() {
    assert!(discovery_query_matches("Canonical Behavior", "behav"));
    assert!(discovery_query_matches("CANONICAL", "canon"));
    assert!(!discovery_query_matches("Canonical", "orchard"));
    assert!(discovery_query_matches("振る舞いを検証する", "検証"));
}

#[test]
fn exact_matches_need_whole_words() {
    assert!(discovery_query_exact_matches("Behavior", "behavior"));
    assert!(discovery_query_exact_matches("BEHAVIOR", "behavior"));
    assert!(!discovery_query_exact_matches("Behavior", "behav"));
    assert!(discovery_query_exact_matches("The canonical behavior holds", "canonical behavior"));
    assert!(!discovery_query_exact_matches("The canonical behavior holds", "behavior canonical"));
    assert!(!discovery_query_exact_matches("anything", "!!"));
    assert!(discovery_query_exact_matches("検証", "検証"));
    assert!(!discovery_query_exact_matches("検証する", "検証"));
}

#[test]
fn glossary_concepts_follow_whole_terms() {
    assert!(matching_discovery_concepts("test")
        .iter()
        .any(|concept| concept.label == "validation"));
    assert!(!matching_discovery_concepts("contest")
        .iter()
        .any(|concept| concept.label == "validation"));
    assert!(!matching_discovery_concepts("invalid")
        .iter()
        .any(|concept| concept.label == "validation"));
    let labels: Vec<&str> = matching_discovery_concepts("振る舞いを検証")
        .iter()
        .map(|concept| concept.label)
        .collect();
    assert_eq!(labels, vec!["behavior", "validation"]);
    assert!(matching_discovery_concepts("orchard").is_empty());
}

#[test]
fn field_weights_follow_field_kinds() {
    assert_eq!(candidate_field_weight("item"), 7);
    assert_eq!(candidate_field_weight("title"), 6);
    assert_eq!(candidate_field_weight("criterion"), 5);
    assert_eq!(candidate_field_weight("summary"), 4);
    assert_eq!(candidate_field_weight("description"), 4);
    assert_eq!(candidate_field_weight("rule"), 3);
    assert_eq!(candidate_field_weight("principle"), 3);
    assert_eq!(candidate_field_weight("other"), 1);
}
