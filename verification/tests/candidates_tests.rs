use mitase_workbench_server::candidates::{
    specification_candidates, AnchorCount, DiscoveryCounts, SpecificationCandidateQuery,
};
use mitase_workbench_server::catalog::{CriterionSummary, ItemSummary};

fn item(id: &str, kind: &str, title: &str, summary: &str, criteria: &[(&str, &str)]) -> ItemSummary {
    ItemSummary {
        id: id.to_string(),
        kind: kind.to_string(),
        path: format!("docs/{id}.yaml"),
        source_hash: "sha256:0".to_string(),
        title: title.to_string(),
        presentation_title_key: None,
        summary: summary.to_string(),
        description: None,
        status: None,
        priority: None,
        principles: vec![],
        rules: vec![],
        criteria: criteria
            .iter()
            .map(|(anchor, statement)| CriterionSummary {
                anchor: anchor.to_string(),
                kind: "behavior".to_string(),
                statement: statement.to_string(),
                governed_by: vec![],
            })
            .collect(),
        bindings: vec![],
        contracts: vec![],
        anchors: vec![],
    }
}

fn catalog() -> Vec<ItemSummary> {
    vec![
        item(
            "REQ-FIXTURE-001",
            "requirement",
            "Canonical behavior",
            "Verify the fixture behavior.",
            &[("REQ-FIXTURE-001#criterion.behavior", "The behavior is verified.")],
        ),
        item("REQ-OTHER-002", "requirement", "Unrelated orchard", "Grows apples.", &[]),
        item("FEAT-X", "feature", "Behavior feature", "Ships it.", &[]),
    ]
}

fn counts() -> DiscoveryCounts {
    DiscoveryCounts {
        implementation_targets: vec![AnchorCount {
            anchor: "REQ-FIXTURE-001#criterion.behavior".to_string(),
            count: 2,
        }],
        verification_targets: vec![AnchorCount {
            anchor: "REQ-FIXTURE-001#criterion.behavior".to_string(),
            count: 1,
        }],
        completed_evidence: vec![],
    }
}

fn query(q: Option<&str>, kind: Option<&str>, limit: Option<usize>) -> SpecificationCandidateQuery {
    SpecificationCandidateQuery {
        q: q.map(str::to_string),
        kind: kind.map(str::to_string),
        limit,
    }
}

#[test]
fn lexical_and_semantic_matches_score_and_rank_candidates() {
    let ranked = specification_candidates(catalog(), &query(Some("behavior"), None, None), &counts());
    let ids: Vec<&str> = ranked.iter().map(|c| c.item.id.as_str()).collect();
    assert_eq!(ids, vec!["REQ-FIXTURE-001", "FEAT-X"]);
    let first = &ranked[0];
    assert_eq!(first.score, 18);
    let details: Vec<&str> = first.evidence.iter().map(|e| e.detail.as_str()).collect();
    assert_eq!(
        details,
        vec![
            "lexical title match",
            "lexical summary match",
            "lexical criterion match",
            "semantic concept 'behavior' links the intent to 3 specification field(s)",
            "1 exact criterion anchor(s), 2 implementation target(s), and 1 verification target(s)",
            "no completed evidence recorded for these criterion anchors",
        ]
    );
    assert_eq!(first.relevance, details);
    assert_eq!(first.matches.len(), 6);
    assert_eq!(first.matches[3].kind, "semantic");
    assert_eq!(first.stable_anchors, vec!["REQ-FIXTURE-001#criterion.behavior"]);
    assert_eq!(ranked[1].score, 9);
}

#[test]
fn japanese_intent_finds_the_english_requirement_through_the_glossary() {
    let ranked = specification_candidates(
        catalog(),
        &query(Some("  振る舞いを検証 "), Some("requirement"), None),
        &counts(),
    );
    assert_eq!(ranked.len(), 1);
    let candidate = &ranked[0];
    assert_eq!(candidate.item.id, "REQ-FIXTURE-001");
    assert_eq!(candidate.score, 6);
    let sources: Vec<&str> = candidate.evidence.iter().map(|e| e.source.as_str()).collect();
    assert_eq!(sources, vec!["semantic", "semantic", "graph", "history"]);
    assert!(candidate.matches.iter().all(|m| m.kind == "semantic"));
    assert_eq!(candidate.matches.len(), 3);
}

#[test]
fn unrelated_or_embedded_intents_do_not_match() {
    assert!(specification_candidates(catalog(), &query(Some("orchestra"), None, None), &counts())
        .is_empty());
    let contest = specification_candidates(catalog(), &query(Some("contest"), None, None), &counts());
    assert!(contest
        .iter()
        .all(|c| c.evidence.iter().all(|e| e.source != "semantic")));
}

#[test]
fn substring_matches_weigh_half() {
    let ranked = specification_candidates(
        catalog(),
        &query(Some("behav"), Some("requirement"), None),
        &counts(),
    );
    assert_eq!(ranked.len(), 1);
    assert_eq!(ranked[0].score, 3 + 2 + 2);
    assert!(ranked[0]
        .evidence
        .iter()
        .any(|e| e.source == "lexical" && e.detail.contains("substring")));
}

#[test]
fn empty_query_lists_every_item_in_id_order_within_the_limit() {
    let all = specification_candidates(catalog(), &query(None, None, None), &counts());
    let ids: Vec<&str> = all.iter().map(|c| c.item.id.as_str()).collect();
    assert_eq!(ids, vec!["FEAT-X", "REQ-FIXTURE-001", "REQ-OTHER-002"]);
    assert!(all.iter().all(|c| c.score == 0 && c.evidence[0].source == "available"));
    assert_eq!(all[0].matches[0].text, "Behavior feature");
    let two = specification_candidates(catalog(), &query(Some(""), None, Some(2)), &counts());
    assert_eq!(two.len(), 2);
    let one = specification_candidates(catalog(), &query(None, None, Some(0)), &counts());
    assert_eq!(one.len(), 1);
    let features = specification_candidates(catalog(), &query(None, Some("feature"), None), &counts());
    assert_eq!(features.len(), 1);
    let any_kind = specification_candidates(catalog(), &query(None, Some(""), None), &counts());
    assert_eq!(any_kind.len(), 3);
}
