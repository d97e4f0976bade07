use mitase_workbench_server::projection::{NestedEditError, NestedEditOperation};
use mitase_workbench_server::yaml::{
    specification_patch_content, AnchorKind, EditPatch, NestedPatch, PatchError, PatchField, YamlEntry,
    YamlValue,
};

fn from_yaml(v: serde_yaml::Value) -> YamlValue {
    match v {
        serde_yaml::Value::Null => YamlValue::Null,
        serde_yaml::Value::Bool(b) => YamlValue::Bool(b),
        serde_yaml::Value::Number(n) => YamlValue::Number(n.to_string()),
        serde_yaml::Value::String(s) => YamlValue::Text(s),
        serde_yaml::Value::Sequence(vs) => YamlValue::Sequence(vs.into_iter().map(from_yaml).collect()),
        serde_yaml::Value::Mapping(m) => YamlValue::Mapping(
            m.into_iter().map(|(k, v)| YamlEntry { key: from_yaml(k), value: from_yaml(v) }).collect(),
        ),
        serde_yaml::Value::Tagged(t) => from_yaml(t.value),
    }
}

fn to_yaml(v: YamlValue) -> serde_yaml::Value {
    match v {
        YamlValue::Null => serde_yaml::Value::Null,
        YamlValue::Bool(b) => serde_yaml::Value::Bool(b),
        YamlValue::Number(n) => serde_yaml::Value::Number(n.parse().unwrap()),
        YamlValue::Text(s) => serde_yaml::Value::String(s),
        YamlValue::Sequence(vs) => serde_yaml::Value::Sequence(vs.into_iter().map(to_yaml).collect()),
        YamlValue::Mapping(es) => {
            serde_yaml::Value::Mapping(es.into_iter().map(|e| (to_yaml(e.key), to_yaml(e.value))).collect())
        }
    }
}

fn parse(text: &str) -> YamlValue {
    from_yaml(serde_yaml::from_str(text).unwrap())
}

fn patch(doc: &str, p: EditPatch) -> Result<serde_yaml::Value, PatchError> {
    specification_patch_content(parse(doc), p).map(to_yaml)
}

fn field(key: &str, value: &str) -> PatchField {
    PatchField { key: key.into(), value: YamlValue::Text(value.into()) }
}

const REQUIREMENTS: &str = "schema: mitase/spec/v1
kind: requirements
requirements:
  - id: REQ-1
    title: Old
    criteria:
      - id: a
        statement: It works
  - id: REQ-2
    title: Other
";

const FEATURES: &str = "schema: mitase/spec/v1
kind: features
features:
  - id: FEAT-1
    title: Login
    bindings:
      - id: impl
        targets:
          - id: t
            claims:
              - satisfies: REQ-1#criterion.a
";

#[test]
fn item_fields_are_written_but_identity_fields_are_kept() {
    let out = patch(
        REQUIREMENTS,
        EditPatch::Specification {
            item_id: "REQ-1".into(),
            fields: vec![field("title", "New"), field("id", "REQ-9"), field("priority", "high")],
        },
    )
    .unwrap();
    let item = &out["requirements"][0];
    assert_eq!(item["id"], "REQ-1");
    assert_eq!(item["title"], "New");
    assert_eq!(item["priority"], "high");
    let keys: Vec<&str> = item.as_mapping().unwrap().keys().map(|k| k.as_str().unwrap()).collect();
    assert_eq!(keys, vec!["id", "title", "criteria", "priority"]);
    assert_eq!(out["requirements"][1]["title"], "Other");
    assert_eq!(out["schema"], "mitase/spec/v1");
}

#[test]
fn anchor_fields_edit_the_named_criterion() {
    let out = patch(
        REQUIREMENTS,
        EditPatch::Anchor {
            item_id: "REQ-1".into(),
            kind: AnchorKind::Criterion,
            local_id: "a".into(),
            fields: vec![field("statement", "It still works")],
        },
    )
    .unwrap();
    assert_eq!(out["requirements"][0]["criteria"][0]["statement"], "It still works");
    let missing = patch(
        REQUIREMENTS,
        EditPatch::Anchor { item_id: "REQ-1".into(), kind: AnchorKind::Rule, local_id: "r".into(), fields: vec![] },
    );
    assert_eq!(missing.unwrap_err(), PatchError::AnchorCollectionMissing);
    let binding = patch(
        REQUIREMENTS,
        EditPatch::Anchor { item_id: "REQ-1".into(), kind: AnchorKind::Binding, local_id: "b".into(), fields: vec![] },
    );
    assert_eq!(binding.unwrap_err(), PatchError::AnchorNotEditable);
    let unknown = patch(
        REQUIREMENTS,
        EditPatch::Anchor { item_id: "REQ-1".into(), kind: AnchorKind::Criterion, local_id: "z".into(), fields: vec![] },
    );
    assert_eq!(unknown.unwrap_err(), PatchError::AnchorNotFound);
}

#[test]
fn documents_and_items_must_be_found() {
    let spec = |id: &str| EditPatch::Specification { item_id: id.into(), fields: vec![] };
    assert_eq!(patch("title: x\n", spec("REQ-1")).unwrap_err(), PatchError::KindMissing);
    assert_eq!(patch("kind: notes\n", spec("REQ-1")).unwrap_err(), PatchError::UnsupportedKind);
    assert_eq!(patch("kind: features\n", spec("REQ-1")).unwrap_err(), PatchError::CollectionMissing);
    assert_eq!(patch(REQUIREMENTS, spec("REQ-3")).unwrap_err(), PatchError::ItemNotFound);
}

fn binding_value(id: &str) -> YamlValue {
    parse(&format!("id: {id}\nrole: implementation\n"))
}

#[test]
fn nested_bindings_are_added_replaced_and_removed() {
    let add = patch(
        REQUIREMENTS,
        EditPatch::Nested {
            item_id: "REQ-2".into(),
            edit: NestedPatch::Binding {
                operation: NestedEditOperation::Upsert,
                id: "b".into(),
                value: binding_value("b"),
                current_id: None,
            },
        },
    )
    .unwrap();
    assert_eq!(add["requirements"][1]["bindings"][0]["id"], "b");
    let renamed = patch(
        FEATURES,
        EditPatch::Nested {
            item_id: "FEAT-1".into(),
            edit: NestedPatch::Binding {
                operation: NestedEditOperation::Upsert,
                id: "other".into(),
                value: binding_value("other"),
                current_id: Some("impl".into()),
            },
        },
    );
    assert_eq!(renamed.unwrap_err(), PatchError::Nested(NestedEditError::Renamed));
    let removed = patch(
        FEATURES,
        EditPatch::Nested {
            item_id: "FEAT-1".into(),
            edit: NestedPatch::Binding {
                operation: NestedEditOperation::Delete,
                id: "impl".into(),
                value: YamlValue::Null,
                current_id: None,
            },
        },
    )
    .unwrap();
    assert_eq!(removed["features"][0]["bindings"].as_sequence().unwrap().len(), 0);
}

#[test]
fn claims_are_edited_by_index() {
    let claim = parse("verifies: REQ-1#criterion.a\n");
    let out = patch(
        FEATURES,
        EditPatch::Nested {
            item_id: "FEAT-1".into(),
            edit: NestedPatch::Claim {
                operation: NestedEditOperation::Upsert,
                binding_id: "impl".into(),
                target_id: "t".into(),
                claim_index: 1,
                value: claim,
            },
        },
    )
    .unwrap();
    let claims = &out["features"][0]["bindings"][0]["targets"][0]["claims"];
    assert_eq!(claims.as_sequence().unwrap().len(), 2);
    assert_eq!(claims[1]["verifies"], "REQ-1#criterion.a");
    let outside = patch(
        FEATURES,
        EditPatch::Nested {
            item_id: "FEAT-1".into(),
            edit: NestedPatch::Claim {
                operation: NestedEditOperation::Delete,
                binding_id: "impl".into(),
                target_id: "t".into(),
                claim_index: 1,
                value: YamlValue::Null,
            },
        },
    );
    assert_eq!(outside.unwrap_err(), PatchError::ClaimIndexOutside);
    let no_target = patch(
        FEATURES,
        EditPatch::Nested {
            item_id: "FEAT-1".into(),
            edit: NestedPatch::Target {
                operation: NestedEditOperation::Delete,
                binding_id: "nope".into(),
                id: "t".into(),
                value: YamlValue::Null,
                current_id: None,
            },
        },
    );
    assert_eq!(no_target.unwrap_err(), PatchError::EntityNotFound);
}

const FEATURES_WITH_ROLES: &str = "schema: mitase/spec/v1
kind: features
features:
  - id: FEAT-1
    title: Login
    bindings:
      - id: docs
        role: documentation
        targets: []
      - id: implementation
        role: implementation
        targets:
          - id: t
            path: src/a.rs
";

#[test]
fn a_criterion_is_added_once_and_only_to_a_requirement() {
    let add = |doc: &str, id: &str| {
        patch(
            doc,
            EditPatch::AddCriterion {
                requirement_id: "REQ-1".into(),
                criterion_id: id.into(),
                criterion: parse(&format!("id: {id}\nstatement: New\n")),
            },
        )
    };
    let out = add(REQUIREMENTS, "b").unwrap();
    assert_eq!(out["requirements"][0]["criteria"][1]["id"], "b");
    assert_eq!(out["requirements"][0]["criteria"][0]["id"], "a");
    assert_eq!(add(REQUIREMENTS, "a").unwrap_err(), PatchError::CriterionExists);
    assert_eq!(add(FEATURES, "b").unwrap_err(), PatchError::CriterionOutsideRequirements);
    let no_criteria = "schema: mitase/spec/v1\nkind: requirements\nrequirements:\n  - id: REQ-1\n    title: Bare\n";
    assert_eq!(add(no_criteria, "b").unwrap_err(), PatchError::CriteriaMissing);
}

#[test]
fn a_requirement_is_created_with_criteria_in_a_requirements_document() {
    let create = |doc: &str, item: &str| patch(doc, EditPatch::CreateRequirement { item: parse(item) });
    let out = create(REQUIREMENTS, "id: REQ-3\ntitle: New\ncriteria:\n  - id: c\n    statement: S\n").unwrap();
    assert_eq!(out["requirements"][2]["id"], "REQ-3");
    assert_eq!(out["requirements"].as_sequence().unwrap().len(), 3);
    assert_eq!(create(REQUIREMENTS, "id: REQ-3\ntitle: New\ncriteria: []\n").unwrap_err(), PatchError::NoCriteria);
    assert_eq!(
        create(FEATURES, "id: REQ-3\ncriteria:\n  - id: c\n").unwrap_err(),
        PatchError::NotRequirementsDocument
    );
}

#[test]
fn a_feature_is_created_only_in_a_features_document() {
    let create = |doc: &str| patch(doc, EditPatch::CreateFeature { item: parse("id: FEAT-2\ntitle: New\n") });
    let out = create(FEATURES).unwrap();
    assert_eq!(out["features"][1]["id"], "FEAT-2");
    assert_eq!(create(REQUIREMENTS).unwrap_err(), PatchError::NotFeaturesDocument);
}

#[test]
fn a_feature_target_joins_the_implementation_binding() {
    let add = |doc: &str, id: &str| {
        patch(
            doc,
            EditPatch::AddFeatureTarget {
                feature_id: "FEAT-1".into(),
                target_id: id.into(),
                target: parse(&format!("id: {id}\npath: src/b.rs\n")),
            },
        )
    };
    let out = add(FEATURES_WITH_ROLES, "u").unwrap();
    let targets = &out["features"][0]["bindings"][1]["targets"];
    assert_eq!(targets[0]["id"], "t");
    assert_eq!(targets[1]["id"], "u");
    assert_eq!(out["features"][0]["bindings"][0]["targets"].as_sequence().unwrap().len(), 0);
    assert_eq!(add(FEATURES_WITH_ROLES, "t").unwrap_err(), PatchError::TargetExists);
    assert_eq!(add(FEATURES, "u").unwrap_err(), PatchError::NoImplementationBinding);
    assert_eq!(add(REQUIREMENTS, "u").unwrap_err(), PatchError::NotFeaturesDocument);
}

#[test]
fn a_configuration_is_no_specification_edit() {
    assert_eq!(patch(REQUIREMENTS, EditPatch::Config).unwrap_err(), PatchError::NotSpecificationPatch);
}

#[test]
fn the_edited_document_must_declare_the_specification_schema() {
    let undeclared = "kind: requirements\nrequirements:\n  - id: REQ-1\n    title: Old\n";
    let edit = EditPatch::Specification { item_id: "REQ-1".into(), fields: vec![field("title", "New")] };
    assert_eq!(patch(undeclared, edit).unwrap_err(), PatchError::SchemaInvalid);
    let other = "schema: mitase/spec/v0\nkind: requirements\nrequirements:\n  - id: REQ-1\n";
    let edit = EditPatch::Specification { item_id: "REQ-1".into(), fields: vec![] };
    assert_eq!(patch(other, edit).unwrap_err(), PatchError::SchemaInvalid);
}

const WEB_REQUIREMENTS: &str = "schema: mitase/spec/v1
kind: requirements
requirements:
  - id: REQ-AUTH-001
    title: Sign in
    criteria:
      - id: invalid-credentials
        kind: behavior
        statement: Invalid credentials are refused
    bindings:
      - id: login
        role: implementation
        facet: http
        responsibility: Serve the login form
        targets:
          - id: handler
            adapter: rust
            path: src/login.rs
            selector: file
            claims:
              - kind: satisfies
                criterion: REQ-AUTH-001#criterion.invalid-credentials
";

const WEB_FEATURES: &str = "schema: mitase/spec/v1
kind: features
features:
  - id: FEAT-AUTH-001
    title: Login
    summary: Users sign in
    bindings:
      - id: schema
        role: implementation
        facet: api
        responsibility: Describe the login API
        owns:
          - id: api-source
            adapter: openapi-source
            selector:
              kind: module
              name: auth
        targets:
          - id: operation
            adapter: openapi
            path: openapi.yaml
            selector: operation
            lifecycle: present
            claims: []
      - id: ui
        role: implementation
        facet: ui
        responsibility: Render the login form
        targets:
          - id: form
            adapter: web
            path: web/login.tsx
            selector: file
            claims:
              - kind: satisfies
                criterion: REQ-AUTH-001#criterion.invalid-credentials
    contracts:
      - id: login-http
        source: FEAT-AUTH-001#binding.schema
        guarantees: []
";

fn text_of(v: &serde_yaml::Value) -> String {
    serde_yaml::to_string(v).unwrap()
}

fn entry<'a>(list: &'a serde_yaml::Value, id: &str) -> &'a serde_yaml::Value {
    list.as_sequence().unwrap().iter().find(|e| e["id"] == id).unwrap()
}

fn value_of(v: &serde_yaml::Value) -> YamlValue {
    from_yaml(v.clone())
}

#[test]
fn typed_nested_binding_and_target_edits_round_trip_without_yaml_maps() {
    let doc: serde_yaml::Value = serde_yaml::from_str(WEB_REQUIREMENTS).unwrap();
    let requirement = entry(&doc["requirements"], "REQ-AUTH-001");
    let binding = &requirement["bindings"][0];
    let mut binding_patch = binding.clone();
    binding_patch["facet"] = format!("{}-edited", binding["facet"].as_str().unwrap()).into();
    let edited = patch(
        WEB_REQUIREMENTS,
        EditPatch::Nested {
            item_id: "REQ-AUTH-001".into(),
            edit: NestedPatch::Binding {
                operation: NestedEditOperation::Upsert,
                id: "login".into(),
                value: value_of(&binding_patch),
                current_id: Some("login".into()),
            },
        },
    )
    .expect("typed binding edit");
    let edited_binding = entry(&entry(&edited["requirements"], "REQ-AUTH-001")["bindings"], "login");
    assert_eq!(edited_binding["facet"], "http-edited");

    let deleted = patch(
        WEB_REQUIREMENTS,
        EditPatch::Nested {
            item_id: "REQ-AUTH-001".into(),
            edit: NestedPatch::Target {
                operation: NestedEditOperation::Delete,
                binding_id: "login".into(),
                id: "handler".into(),
                value: value_of(&binding["targets"][0]),
                current_id: Some("handler".into()),
            },
        },
    )
    .expect("typed target delete");
    let remaining = &entry(&entry(&deleted["requirements"], "REQ-AUTH-001")["bindings"], "login")["targets"];
    assert!(remaining.as_sequence().unwrap().iter().all(|t| t["id"] != "handler"));
}

#[test]
fn module_ownership_round_trip_preserves_name_and_renames_are_rejected() {
    let doc: serde_yaml::Value = serde_yaml::from_str(WEB_FEATURES).unwrap();
    let ownership = doc["features"][0]["bindings"][0]["owns"][0].clone();
    let edit = |current: &str| EditPatch::Nested {
        item_id: "FEAT-AUTH-001".into(),
        edit: NestedPatch::Ownership {
            operation: NestedEditOperation::Upsert,
            binding_id: "schema".into(),
            id: "api-source".into(),
            value: value_of(&ownership),
            current_id: Some(current.into()),
        },
    };
    let content = text_of(&patch(WEB_FEATURES, edit("api-source")).expect("round trip"));
    assert!(content.contains("kind: module"));
    assert!(content.contains("name:"));
    assert!(patch(WEB_FEATURES, edit("different-id")).is_err());
}

#[test]
fn typed_nested_edit_round_trip_covers_all_entity_variants() {
    let doc: serde_yaml::Value = serde_yaml::from_str(WEB_FEATURES).unwrap();
    let feature = &doc["features"][0];
    let schema = entry(&feature["bindings"], "schema");
    let ownership = schema["owns"][0].clone();
    let target = schema["targets"][0].clone();
    let contract = feature["contracts"][0].clone();
    let nested = |edit: NestedPatch| patch(WEB_FEATURES, EditPatch::Nested { item_id: "FEAT-AUTH-001".into(), edit });

    let mut edited_ownership = ownership.clone();
    edited_ownership["adapter"] = "openapi-edited".into();
    let out = nested(NestedPatch::Ownership {
        operation: NestedEditOperation::Upsert,
        binding_id: "schema".into(),
        id: "api-source".into(),
        value: value_of(&edited_ownership),
        current_id: Some("api-source".into()),
    })
    .expect("ownership upsert");
    assert!(text_of(&out).contains("openapi-edited"));
    let out = nested(NestedPatch::Ownership {
        operation: NestedEditOperation::Delete,
        binding_id: "schema".into(),
        id: "api-source".into(),
        value: value_of(&ownership),
        current_id: None,
    })
    .expect("ownership delete");
    assert!(!text_of(&out).contains("openapi-source"));

    let mut moved = target.clone();
    moved["path"] = "openapi-v2.yaml".into();
    let out = nested(NestedPatch::Target {
        operation: NestedEditOperation::Upsert,
        binding_id: "schema".into(),
        id: "operation".into(),
        value: value_of(&moved),
        current_id: Some("operation".into()),
    })
    .expect("target selector/path update");
    assert!(text_of(&out).contains("openapi-v2.yaml"));
    let mut absent = target.clone();
    absent["path"] = "openapi-removed.yaml".into();
    absent["lifecycle"] = "absent".into();
    let out = nested(NestedPatch::Target {
        operation: NestedEditOperation::Upsert,
        binding_id: "schema".into(),
        id: "operation".into(),
        value: value_of(&absent),
        current_id: Some("operation".into()),
    })
    .expect("absent target edit");
    let lifecycle = &entry(&entry(&out["features"][0]["bindings"], "schema")["targets"], "operation")["lifecycle"];
    assert_eq!(lifecycle, "absent");

    let claim: serde_yaml::Value =
        serde_yaml::from_str("kind: documents\nanchor: REQ-AUTH-001#criterion.invalid-credentials\n").unwrap();
    let ui_target = entry(&entry(&feature["bindings"], "ui")["targets"], "form");
    let out = nested(NestedPatch::Claim {
        operation: NestedEditOperation::Upsert,
        binding_id: "ui".into(),
        target_id: "form".into(),
        claim_index: ui_target["claims"].as_sequence().unwrap().len(),
        value: value_of(&claim),
    })
    .expect("claim create");
    assert!(text_of(&out).contains("documents"));
    let out = nested(NestedPatch::Claim {
        operation: NestedEditOperation::Delete,
        binding_id: "ui".into(),
        target_id: "form".into(),
        claim_index: 0,
        value: value_of(&ui_target["claims"][0]),
    })
    .expect("claim delete");
    let claims = &entry(&entry(&out["features"][0]["bindings"], "ui")["targets"], "form")["claims"];
    assert!(claims.as_sequence().unwrap().is_empty());

    let mut guaranteed = contract.clone();
    guaranteed["guarantees"] = serde_yaml::from_str("[REQ-AUTH-001#criterion.invalid-credentials]").unwrap();
    let out = nested(NestedPatch::Contract {
        operation: NestedEditOperation::Upsert,
        id: "login-http".into(),
        value: value_of(&guaranteed),
        current_id: Some("login-http".into()),
    })
    .expect("contract update");
    assert!(text_of(&out).contains("invalid-credentials"));
    let out = nested(NestedPatch::Contract {
        operation: NestedEditOperation::Delete,
        id: "login-http".into(),
        value: value_of(&contract),
        current_id: None,
    })
    .expect("contract delete");
    assert!(!text_of(&out).contains("login-http"));
}
