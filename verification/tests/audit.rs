use mcpg_policy_cedar::advice::read_json;
use mcpg_policy_cedar::audit::{
    actor, audit_event, matched_rules, split_list, strip, synthetic_system_identity,
};
use mcpg_policy_cedar::config::default_anonymous_id;
use mcpg_policy_cedar::engine::{
    current_policy_version, manifest, module_path_prefix, policy_version_at,
};
use mcpg_policy_cedar::json::Json;
use mcpg_policy_cedar::protocol::{
    AuditOutcome, PluginClass, PluginContext, PluginIdentity, PolicyDecision, PolicyEffect,
};
use mcpg_policy_cedar::{
    CedarConfig, EvaluationConfig, ReloadConfig, TranslationConfig,
};

fn config() -> CedarConfig {
    CedarConfig {
        policy_dir: "/policies".to_owned(),
        translation: TranslationConfig {
            principal_type: "User".to_owned(),
            action_namespace: "Action".to_owned(),
            resource_types: vec![],
            anonymous_principal_id: default_anonymous_id(),
        },
        evaluation: EvaluationConfig::default(),
        reload: ReloadConfig::default(),
        schema_path: None,
        entities_path: None,
        include_input_as_context: false,
    }
}

fn context(kind: &str, subject: Option<&str>) -> PluginContext {
    PluginContext {
        request_id: "r1".to_owned(),
        session_id: None,
        tool_name: "orders".to_owned(),
        surface: "tool".to_owned(),
        identity: PluginIdentity {
            kind: kind.to_owned(),
            trust_level: "verified".to_owned(),
            subject_id: subject.map(|s| s.to_owned()),
            auth_provider: Some("oidc".to_owned()),
            issuer: None,
            roles: vec!["reader".to_owned()],
            groups: vec![],
            scopes: vec![],
            attributes: vec![("team".to_owned(), Json::text("x"))],
        },
        transport: "http".to_owned(),
    }
}

#[test]
fn forbids_are_read_off_the_reason() {
    let rules = |reason: &str| matched_rules(&Some(reason.to_owned()));
    assert_eq!(rules("cedar forbid: policy0"), vec!["policy0"]);
    assert_eq!(rules("cedar forbid: policy0, policy1"), vec!["policy0", "policy1"]);
    assert_eq!(rules("cedar forbid:cedar forbid: a ,, b"), vec!["a", "b"]);
    assert!(rules("cedar forbid: ").is_empty());
    assert!(rules("cedar: default-deny (no policy matched)").is_empty());
    assert!(rules("cedar translate: a, b").is_empty());
    assert!(matched_rules(&None).is_empty());
}

#[test]
fn lists_and_prefixes() {
    assert_eq!(split_list(""), Vec::<String>::new());
    assert_eq!(split_list(" a"), vec!["a"]);
    assert_eq!(split_list(",a,"), vec!["a"]);
    assert_eq!(strip("xxab", "x"), "ab");
    assert_eq!(strip("ab", "x"), "ab");
    assert_eq!(strip("ab", ""), "ab");
}

#[test]
fn denials_are_audited() {
    let decision = PolicyDecision::deny("cedar forbid: policy0, policy1".to_owned(), "v1");
    let ctx = context("verified", Some("alice"));
    let event =
        audit_event(&config(), "write", &decision, &ctx, 2_500_000, "main", "then").unwrap();
    assert_eq!(event.event_id, "cedar-r1-2500000");
    assert_eq!(event.occurred_at, "then");
    assert_eq!(event.action, "dev.mcpg.policy.cedar.deny");
    assert_eq!(event.resource.as_deref(), Some("tool://orders/write"));
    assert_eq!(event.outcome, AuditOutcome::Denied);
    assert_eq!(event.request_id.as_deref(), Some("r1"));
    assert!(event.node_id.is_none());
    assert!(event.prev_event_hash.is_none());
    assert_eq!(event.actor.kind, "verified");
    assert_eq!(event.actor.auth_provider.as_deref(), Some("oidc"));
    assert_eq!(event.actor.roles, vec!["reader"]);
    assert_eq!(event.actor.attributes, vec![("team".to_owned(), Json::text("x"))]);
    assert_eq!(
        event.details,
        read_json(
            r#"{
                "engine": "cedar",
                "decision_point": "write",
                "subject": "alice",
                "resource": "tool://orders/write",
                "matched_rules": ["policy0", "policy1"],
                "reason": "cedar forbid: policy0, policy1",
                "policy_version": "v1",
                "duration_ms": 2,
                "alias": "main"
            }"#
        )
        .unwrap()
    );
}

#[test]
fn failures_are_audited_as_such() {
    let decision = PolicyDecision::deny("cedar translate: bad".to_owned(), "v1");
    let ctx = context("", None);
    let event =
        audit_event(&config(), "write", &decision, &ctx, u128::MAX, "main", "then").unwrap();
    assert_eq!(event.action, "dev.mcpg.policy.cedar.error");
    assert_eq!(event.outcome, AuditOutcome::Failure);
    assert_eq!(event.event_id, format!("cedar-r1-{}", u128::MAX));
    assert_eq!(event.actor.kind, "system");
    assert_eq!(event.actor.subject_id.as_deref(), Some("dev.mcpg.policy.cedar"));
    match &event.details {
        Json::Object(members) => {
            assert_eq!(members[2], ("subject".to_owned(), Json::text("anonymous")));
            assert_eq!(members[4], ("matched_rules".to_owned(), Json::Array(vec![])));
            let millis = (u128::MAX / 1_000_000) as u64;
            assert_eq!(members[7], ("duration_ms".to_owned(), Json::unsigned(millis)));
        }
        other => panic!("{other:?}"),
    }
}

#[test]
fn other_decisions_are_not_audited() {
    let ctx = context("verified", Some("alice"));
    for effect in [PolicyEffect::Allow, PolicyEffect::NotApplicable] {
        let decision = PolicyDecision::plain(effect, None, "v1");
        assert!(audit_event(&config(), "read", &decision, &ctx, 1, "main", "then").is_none());
    }
    let decision = PolicyDecision::plain(PolicyEffect::Deny, None, "v1");
    let event = audit_event(&config(), "read", &decision, &ctx, 1, "main", "then").unwrap();
    assert_eq!(event.outcome, AuditOutcome::Denied);
}

#[test]
fn actors() {
    let system = synthetic_system_identity();
    assert_eq!(system.kind, "system");
    assert_eq!(system.trust_level, "verified");
    assert!(system.roles.is_empty() && system.groups.is_empty() && system.scopes.is_empty());
    assert!(system.attributes.is_empty());
    assert_eq!(actor(&context("", Some("a")).identity).kind, "system");
    assert_eq!(
        actor(&context("k", Some("a")).identity).subject_id.as_deref(),
        Some("a")
    );
}

#[test]
fn the_engine_introduces_itself() {
    let m = manifest("1.2.3", "mcpg_plugin_policy_cedar::plugin");
    assert_eq!(m.id, "dev.mcpg.policy.cedar");
    assert_eq!(m.version, "1.2.3");
    assert_eq!(m.name, "Cedar Policy Engine");
    assert_eq!(m.plugin_class, PluginClass::PolicyEngine);
    assert_eq!(m.protocol_version, "1.0");
    assert_eq!(m.module_path_prefix, "mcpg_plugin_policy_cedar");
    assert!(m.license.is_none() && m.backend_profile.is_none());
    assert!(m.required_capabilities.is_empty() && m.tags.is_empty());
    assert!(m.provides.is_empty() && m.provides_schemes.is_empty());
    for path in ["", "a", "a::b::c", "::a", ":", "a:b::c", "a:::b", "a:"] {
        assert_eq!(module_path_prefix(path), path.split("::").next().unwrap());
    }
}

#[test]
fn the_policies_in_force() {
    let v = policy_version_at(&config(), "abc", "@17".to_owned());
    assert_eq!(v.hash, "abc");
    assert_eq!(v.loaded_at, "@17");
    assert_eq!(v.source, "cedar policies in /policies");
    let v = current_policy_version(&config(), "abc");
    assert!(v.loaded_at[1..].parse::<u64>().unwrap() > 1_700_000_000);
}
