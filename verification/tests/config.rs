use mcpg_policy_cedar::config::{default_anonymous_id, default_check_interval_sec};
use mcpg_policy_cedar::{
    CedarConfig, ConfigError, DefaultDenyMode, EvaluationConfig, ReloadConfig, ResourceType,
    TranslationConfig,
};

fn text(v: &serde_json::Value, key: &str) -> String {
    v[key].as_str().unwrap_or("").to_owned()
}

/// Decodes a configuration, with the defaults for what is left out.
fn decode(json: &str) -> Result<CedarConfig, String> {
    let v: serde_json::Value = serde_json::from_str(json).map_err(|e| e.to_string())?;
    let t = &v["translation"];
    Ok(CedarConfig {
        policy_dir: text(&v, "policy_dir"),
        translation: TranslationConfig {
            principal_type: text(t, "principal_type"),
            action_namespace: text(t, "action_namespace"),
            resource_types: t["resource_types"]
                .as_array()
                .unwrap()
                .iter()
                .map(|r| ResourceType {
                    decision_point: text(r, "decision_point"),
                    resource_type: text(r, "resource_type"),
                    resource_id_path: text(r, "resource_id_path"),
                })
                .collect(),
            anonymous_principal_id: default_anonymous_id(),
        },
        evaluation: EvaluationConfig::default(),
        reload: ReloadConfig::default(),
        schema_path: None,
        entities_path: None,
        include_input_as_context: false,
    })
}

fn parse(json: &str) -> Result<CedarConfig, ConfigError> {
    CedarConfig::parse(decode(json))
}

fn minimal() -> CedarConfig {
    decode(
        r#"{
            "policy_dir": "/x",
            "translation": {
                "principal_type": "User",
                "action_namespace": "Action",
                "resource_types": [
                    { "decision_point": "read", "resource_type": "Doc" },
                    { "decision_point": "*", "resource_type": "Generic" }
                ]
            }
        }"#,
    )
    .unwrap()
}

#[test]
fn parses_minimal_config() {
    let parsed = parse(
        r#"{
            "policy_dir": "/etc/mcpg/cedar",
            "translation": {
                "principal_type": "User",
                "action_namespace": "Action",
                "resource_types": [
                    { "decision_point": "tool.call.pre", "resource_type": "Tool", "resource_id_path": "/tool" }
                ]
            }
        }"#,
    )
    .unwrap();
    assert_eq!(parsed.translation.resource_types.len(), 1);
    assert_eq!(parsed.translation.anonymous_principal_id, "anonymous");
    assert_eq!(parsed.translation.resource_types[0].resource_id_path, "/tool");
}

#[test]
fn rejects_empty_policy_dir() {
    let err = parse(
        r#"{
            "policy_dir": "",
            "translation": {
                "principal_type": "User",
                "action_namespace": "Action",
                "resource_types": [
                    { "decision_point": "*", "resource_type": "Tool" }
                ]
            }
        }"#,
    )
    .unwrap_err();
    assert!(matches!(err, ConfigError::EmptyPolicyDir));
}

#[test]
fn rejects_duplicate_decision_point() {
    let err = parse(
        r#"{
            "policy_dir": "/x",
            "translation": {
                "principal_type": "User",
                "action_namespace": "Action",
                "resource_types": [
                    { "decision_point": "read", "resource_type": "Tool" },
                    { "decision_point": "read", "resource_type": "Doc" }
                ]
            }
        }"#,
    )
    .unwrap_err();
    assert!(matches!(err, ConfigError::DuplicateDecisionPoint { .. }));
    assert_eq!(
        err.message(),
        "policy.cedar: duplicate decision_point `read` in resource_types — operator must declare \
         each decision_point at most once (with optional `*` catch-all)"
    );
}

#[test]
fn rejects_empty_resource_types() {
    let err = parse(
        r#"{
            "policy_dir": "/x",
            "translation": {
                "principal_type": "User",
                "action_namespace": "Action",
                "resource_types": []
            }
        }"#,
    )
    .unwrap_err();
    assert!(matches!(err, ConfigError::EmptyResourceTypes));
}

#[test]
fn resource_type_for_uses_exact_match_then_catchall() {
    let cfg = parse(
        r#"{
            "policy_dir": "/x",
            "translation": {
                "principal_type": "User",
                "action_namespace": "Action",
                "resource_types": [
                    { "decision_point": "read", "resource_type": "Doc" },
                    { "decision_point": "*", "resource_type": "Generic" }
                ]
            }
        }"#,
    )
    .unwrap();
    assert_eq!(cfg.resource_type_for("read").unwrap().resource_type, "Doc");
    assert_eq!(cfg.resource_type_for("write").unwrap().resource_type, "Generic");
}

#[test]
fn no_entry_without_catchall() {
    let mut cfg = minimal();
    cfg.translation.resource_types.pop();
    assert!(cfg.resource_type_for("write").is_none());
    assert!(cfg.resource_type_for("*").is_none());
}

#[test]
fn catchall_may_stand_first() {
    let mut cfg = minimal();
    cfg.translation.resource_types.reverse();
    assert!(cfg.validate().is_ok());
    assert_eq!(cfg.resource_type_for("read").unwrap().resource_type, "Doc");
    assert_eq!(cfg.resource_type_for("*").unwrap().resource_type, "Generic");
}

#[test]
fn every_entry_is_found_under_its_decision_point() {
    let cfg = minimal();
    assert!(cfg.validate().is_ok());
    for entry in &cfg.translation.resource_types {
        let found = cfg.resource_type_for(&entry.decision_point).unwrap();
        assert_eq!(found.resource_type, entry.resource_type);
    }
}

#[test]
fn rejects_text_that_is_no_json() {
    let err = parse("{").unwrap_err();
    assert!(matches!(err, ConfigError::InvalidJson(_)));
    assert!(err.message().starts_with("invalid policy.cedar config JSON: EOF"));
}

#[test]
fn rejects_blank_texts() {
    let mut cfg = minimal();
    cfg.policy_dir = " \t".to_owned();
    let err = cfg.validate().unwrap_err();
    assert!(matches!(err, ConfigError::EmptyPolicyDir));
    assert_eq!(err.message(), "policy.cedar: policy_dir is empty");

    let mut cfg = minimal();
    cfg.translation.principal_type = "\u{3000}".to_owned();
    let err = cfg.validate().unwrap_err();
    assert!(matches!(err, ConfigError::EmptyPrincipalType));
    assert_eq!(err.message(), "policy.cedar: translation.principal_type is empty");

    let mut cfg = minimal();
    cfg.translation.action_namespace = String::new();
    let err = cfg.validate().unwrap_err();
    assert!(matches!(err, ConfigError::EmptyActionNamespace));
    assert_eq!(err.message(), "policy.cedar: translation.action_namespace is empty");

    let mut cfg = minimal();
    cfg.translation.resource_types[1].resource_type = "  ".to_owned();
    let err = cfg.validate().unwrap_err();
    assert!(matches!(err, ConfigError::EmptyResourceType { index: 1, .. }));
    assert_eq!(
        err.message(),
        "policy.cedar: resource_types[1] (decision_point=`*`): resource_type is empty"
    );

    let mut cfg = minimal();
    cfg.schema_path = Some(" ".to_owned());
    let err = cfg.validate().unwrap_err();
    assert!(matches!(err, ConfigError::EmptySchemaPath));
    assert_eq!(err.message(), "policy.cedar: schema_path is set but empty");

    let mut cfg = minimal();
    cfg.entities_path = Some(String::new());
    let err = cfg.validate().unwrap_err();
    assert!(matches!(err, ConfigError::EmptyEntitiesPath));
    assert_eq!(err.message(), "policy.cedar: entities_path is set but empty");
}

#[test]
fn rejects_zero_interval_only_when_reload_is_enabled() {
    let mut cfg = minimal();
    cfg.reload = ReloadConfig { enabled: false, check_interval_sec: 0 };
    assert!(cfg.validate().is_ok());
    cfg.reload.enabled = true;
    let err = cfg.validate().unwrap_err();
    assert!(matches!(err, ConfigError::InvalidCheckInterval));
    assert_eq!(
        err.message(),
        "policy.cedar: reload.check_interval_sec must be > 0 when reload.enabled = true"
    );
    cfg.reload.check_interval_sec = 1;
    assert!(cfg.validate().is_ok());
}

#[test]
fn the_first_fault_is_reported() {
    let mut cfg = minimal();
    cfg.policy_dir = String::new();
    cfg.translation.resource_types.clear();
    cfg.schema_path = Some(String::new());
    assert!(matches!(cfg.validate().unwrap_err(), ConfigError::EmptyPolicyDir));
    cfg.policy_dir = "/x".to_owned();
    let err = cfg.validate().unwrap_err();
    assert!(matches!(err, ConfigError::EmptyResourceTypes));
    assert_eq!(err.message(), "policy.cedar: translation.resource_types must be non-empty");
    cfg.translation.resource_types.push(ResourceType {
        decision_point: "read".to_owned(),
        resource_type: "Doc".to_owned(),
        resource_id_path: String::new(),
    });
    assert!(matches!(cfg.validate().unwrap_err(), ConfigError::EmptySchemaPath));
}

#[test]
fn defaults() {
    assert_eq!(default_anonymous_id(), "anonymous");
    assert_eq!(default_check_interval_sec(), 60);
    assert_eq!(ReloadConfig::default(), ReloadConfig { enabled: false, check_interval_sec: 60 });
    assert_eq!(EvaluationConfig::default().on_default_deny, DefaultDenyMode::NotApplicable);
}
