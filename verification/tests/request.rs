use mcpg_policy_cedar::advice::read_json;
use mcpg_policy_cedar::config::default_anonymous_id;
use mcpg_policy_cedar::json::Json;
use mcpg_policy_cedar::protocol::{PluginContext, PluginIdentity};
use mcpg_policy_cedar::request::{
    build_context, build_request, context_json, entity_uid_text, explain, principal_id,
    quote_uid_id, resource_id, resource_id_in, uncovered_message,
};
use mcpg_policy_cedar::{
    CedarConfig, EvaluationConfig, ReloadConfig, ResourceType, TranslationConfig,
};

fn json(text: &str) -> Json {
    read_json(text).unwrap()
}

fn config() -> CedarConfig {
    CedarConfig {
        policy_dir: "/policies".to_owned(),
        translation: TranslationConfig {
            principal_type: "Acme::User".to_owned(),
            action_namespace: "Action".to_owned(),
            resource_types: vec![ResourceType {
                decision_point: "*".to_owned(),
                resource_type: "Tool".to_owned(),
                resource_id_path: "/a/b".to_owned(),
            }],
            anonymous_principal_id: default_anonymous_id(),
        },
        evaluation: EvaluationConfig::default(),
        reload: ReloadConfig::default(),
        schema_path: None,
        entities_path: None,
        include_input_as_context: true,
    }
}

fn context(subject: Option<&str>) -> PluginContext {
    PluginContext {
        request_id: "r1".to_owned(),
        session_id: None,
        tool_name: "tool".to_owned(),
        surface: "tool".to_owned(),
        identity: PluginIdentity {
            kind: "verified".to_owned(),
            trust_level: "verified".to_owned(),
            subject_id: subject.map(|s| s.to_owned()),
            auth_provider: None,
            issuer: None,
            roles: vec![],
            groups: vec![],
            scopes: vec![],
            attributes: vec![],
        },
        transport: "http".to_owned(),
    }
}

#[test]
fn ids_are_quoted() {
    assert_eq!(quote_uid_id("alice"), "alice");
    assert_eq!(quote_uid_id("a\"b"), "a\\\"b");
    assert_eq!(quote_uid_id("a\\b"), "a\\\\b");
    assert_eq!(quote_uid_id("\\\""), "\\\\\\\"");
    assert_eq!(quote_uid_id(""), "");
    for s in ["x", "\"", "\\", "\\\"", "a\\\\\"\"é"] {
        assert_eq!(quote_uid_id(s), s.replace('\\', "\\\\").replace('"', "\\\""));
    }
}

#[test]
fn uids_of_entities() {
    assert_eq!(entity_uid_text("User", "alice"), "User::\"alice\"");
    assert_eq!(entity_uid_text("A::B", "x\"y"), "A::B::\"x\\\"y\"");
    assert_ne!(entity_uid_text("User", "a\\"), entity_uid_text("User", "a\""));
}

#[test]
fn principals() {
    let cfg = config();
    assert_eq!(principal_id(&cfg, &context(Some("alice")).identity), "alice");
    assert_eq!(principal_id(&cfg, &context(None).identity), "anonymous");
}

#[test]
fn resource_ids() {
    assert_eq!(resource_id("", Some(&Json::text("x"))), "unspecified");
    assert_eq!(resource_id("/a", None), "unknown");
    assert_eq!(resource_id("/a", Some(&Json::text("x"))), "x");
    assert_eq!(resource_id("/a", Some(&json("-1.5"))), "-1.5");
    assert_eq!(resource_id("/a", Some(&json("{\"k\": [true]}"))), "{\"k\":[true]}");
    let input = json(r#"{"a": {"b": "deep"}, "x/y": 1, "list": ["p", "q"]}"#);
    assert_eq!(resource_id_in("/a/b", &input), "deep");
    assert_eq!(resource_id_in("/x~1y", &input), "1");
    assert_eq!(resource_id_in("/list/1", &input), "q");
    assert_eq!(resource_id_in("/none", &input), "unknown");
    assert_eq!(resource_id_in("no-slash", &input), "unknown");
    assert_eq!(resource_id_in("", &input), "unspecified");
    assert_eq!(resource_id_in("/a", &input), "{\"b\":\"deep\"}");
}

#[test]
fn contexts_are_objects() {
    assert_eq!(context_json(&json("{\"k\": 1}")), json("{\"k\": 1}"));
    assert_eq!(context_json(&json("7")), json("{\"value\": 7}"));
    assert_eq!(context_json(&json("[1]")), json("{\"value\": [1]}"));
    assert_eq!(context_json(&Json::Null), json("{\"value\": null}"));
}

#[test]
fn messages() {
    assert_eq!(explain("a: ", "b"), "a: b");
    assert_eq!(
        uncovered_message("write"),
        "no resource_types entry covers decision_point `write` (and no `*` catch-all configured)"
    );
}

#[test]
fn requests_name_their_entities() {
    let cfg = config();
    let input = json(r#"{"a": {"b": "orders"}}"#);
    let request =
        build_request(&cfg, None, "read", &input, &context(Some("a\"b"))).unwrap();
    assert_eq!(request.principal().unwrap().to_string(), "Acme::User::\"a\\\"b\"");
    assert_eq!(request.action().unwrap().to_string(), "Action::\"read\"");
    assert_eq!(request.resource().unwrap().to_string(), "Tool::\"orders\"");
    let context = request.context().unwrap();
    assert!(context.get("a").is_some());
}

#[test]
fn contexts_hold_the_input_where_asked() {
    let mut cfg = config();
    let action: cedar_policy::EntityUid = "Action::\"read\"".parse().unwrap();
    let context = build_context(&cfg, None, &action, &json("{\"k\": 1}")).unwrap();
    assert!(context.get("k").is_some());
    let context = build_context(&cfg, None, &action, &json("true")).unwrap();
    assert!(context.get("value").is_some());
    cfg.include_input_as_context = false;
    let context = build_context(&cfg, None, &action, &json("{\"k\": 1}")).unwrap();
    assert!(context.get("k").is_none());
}

#[test]
fn input_that_cedar_cannot_hold_is_refused() {
    let cfg = config();
    let action: cedar_policy::EntityUid = "Action::\"read\"".parse().unwrap();
    let message = build_context(&cfg, None, &action, &json("{\"k\": null}")).unwrap_err();
    assert!(message.starts_with("input → context translation failed: "), "{message}");
    let message = build_request(
        &cfg,
        None,
        "read",
        &json(r#"{"a": {"b": 1.5}}"#),
        &context(None),
    )
    .unwrap_err();
    assert!(message.starts_with("input → context translation failed: "), "{message}");
}

#[test]
fn deep_input_of_values() {
    let mut input = json("1");
    for _ in 0..20 {
        input = Json::Object(vec![("k".to_owned(), Json::Array(vec![input]))]);
    }
    assert_eq!(context_json(&input), input);
    assert_eq!(input.duplicate(), input);
}
