use mcpg_policy_cedar::advice::read_json;
use mcpg_policy_cedar::bundle::{parse_full_bundle, CompiledBundle, PolicyFile, TextFile};
use mcpg_policy_cedar::config::default_anonymous_id;
use mcpg_policy_cedar::decision::{
    decide, decision_label, evaluate_request_inner, host_outcome_label,
};
use mcpg_policy_cedar::bundle::MatchedPolicy;
use mcpg_policy_cedar::json::Json;
use mcpg_policy_cedar::protocol::{PluginContext, PluginIdentity, PolicyDecision, PolicyEffect};
use mcpg_policy_cedar::{
    CedarConfig, DefaultDenyMode, EvaluationConfig, ReloadConfig, ResourceType, TranslationConfig,
};

struct Engine {
    config: CedarConfig,
    bundle: CompiledBundle,
}

fn entry(decision_point: &str, resource_type: &str, resource_id_path: &str) -> ResourceType {
    ResourceType {
        decision_point: decision_point.to_owned(),
        resource_type: resource_type.to_owned(),
        resource_id_path: resource_id_path.to_owned(),
    }
}

fn config(resource_types: Vec<ResourceType>) -> CedarConfig {
    CedarConfig {
        policy_dir: "/policies".to_owned(),
        translation: TranslationConfig {
            principal_type: "User".to_owned(),
            action_namespace: "Action".to_owned(),
            resource_types,
            anonymous_principal_id: default_anonymous_id(),
        },
        evaluation: EvaluationConfig::default(),
        reload: ReloadConfig::default(),
        schema_path: None,
        entities_path: None,
        include_input_as_context: false,
    }
}

fn standard_translation() -> Vec<ResourceType> {
    vec![entry("*", "Tool", "/tool")]
}

fn policy_files(policies: &[&str]) -> Vec<PolicyFile> {
    policies
        .iter()
        .enumerate()
        .map(|(i, text)| PolicyFile {
            path: format!("p{i}.cedar"),
            contents: Ok(text.as_bytes().to_vec()),
        })
        .collect()
}

fn file(path: &str, text: &str) -> Option<TextFile> {
    Some(TextFile { path: path.to_owned(), contents: Ok(text.to_owned()) })
}

fn build(policies: &[&str], resource_types: Vec<ResourceType>) -> Engine {
    Engine {
        config: config(resource_types),
        bundle: parse_full_bundle(Ok(policy_files(policies)), &None, &None).unwrap_or_else(|e| panic!("{e:?}")),
    }
}

fn json(text: &str) -> Json {
    read_json(text).unwrap()
}

fn evaluate(engine: &Engine, decision_point: &str, input: &str, ctx: &PluginContext) -> PolicyDecision {
    evaluate_request_inner(&engine.config, &engine.bundle, "v1", decision_point, &json(input), ctx)
}

fn ctx(subject: &str) -> PluginContext {
    PluginContext {
        request_id: "r1".to_owned(),
        session_id: None,
        tool_name: "tool".to_owned(),
        surface: "tool".to_owned(),
        identity: PluginIdentity {
            kind: "verified".to_owned(),
            trust_level: "verified".to_owned(),
            subject_id: Some(subject.to_owned()),
            auth_provider: None,
            issuer: None,
            roles: vec![],
            groups: vec![],
            scopes: vec![],
            attributes: vec![],
        },
        transport: "http".to_owned(),
    }
}

const ALICE_READS_ORDERS: &str = r#"permit(
                principal == User::"alice",
                action == Action::"read",
                resource == Tool::"orders"
            );"#;

#[test]
fn permit_allows_matching_request() {
    let engine = build(&[ALICE_READS_ORDERS], standard_translation());
    let dec = evaluate(&engine, "read", r#"{ "tool": "orders" }"#, &ctx("alice"));
    assert_eq!(dec.effect, PolicyEffect::Allow);
    assert_eq!(dec.policy_version, "v1");
    assert!(dec.reason.is_none());
    assert!(dec.attributes.is_empty());
}

#[test]
fn no_match_maps_to_not_applicable() {
    let engine = build(&[ALICE_READS_ORDERS], standard_translation());
    let dec = evaluate(&engine, "read", r#"{ "tool": "users" }"#, &ctx("alice"));
    assert_eq!(dec.effect, PolicyEffect::NotApplicable);
    assert!(dec.reason.is_none());
}

#[test]
fn forbid_emits_explicit_deny_with_reason() {
    let engine = build(
        &[
            r#"permit(principal, action, resource);"#,
            r#"@policy_id("forbid-write")
                forbid(
                    principal,
                    action == Action::"write",
                    resource
                );"#,
        ],
        standard_translation(),
    );
    let dec = evaluate(&engine, "write", r#"{ "tool": "orders" }"#, &ctx("alice"));
    assert_eq!(dec.effect, PolicyEffect::Deny);
    let reason = dec.reason.unwrap();
    assert!(reason.starts_with("cedar forbid:"));
    assert_eq!(reason, "cedar forbid: policy1");
}

#[test]
fn strict_default_deny_returns_deny() {
    let mut engine =
        build(&[r#"permit(principal == User::"alice", action, resource);"#], standard_translation());
    engine.config.evaluation.on_default_deny = DefaultDenyMode::Deny;
    let dec = evaluate(&engine, "read", r#"{ "tool": "orders" }"#, &ctx("bob"));
    assert_eq!(dec.effect, PolicyEffect::Deny);
    assert!(dec.reason.unwrap().contains("default-deny"));
}

#[test]
fn anonymous_principal_used_when_subject_id_absent() {
    let engine = build(
        &[r#"permit(
                principal == User::"anonymous",
                action == Action::"read",
                resource
            );"#],
        standard_translation(),
    );
    let mut c = ctx("alice");
    c.identity.subject_id = None;
    let dec = evaluate(&engine, "read", r#"{ "tool": "x" }"#, &c);
    assert_eq!(dec.effect, PolicyEffect::Allow);
}

#[test]
fn resource_id_path_extraction() {
    let engine = build(
        &[r#"permit(
                principal,
                action == Action::"read",
                resource == Tool::"orders"
            );"#],
        standard_translation(),
    );
    let dec = evaluate(&engine, "read", r#"{ "tool": "orders" }"#, &ctx("alice"));
    assert_eq!(dec.effect, PolicyEffect::Allow);
}

#[test]
fn missing_resource_id_path_falls_back_to_unknown() {
    let engine = build(
        &[r#"permit(
                principal,
                action == Action::"read",
                resource == Tool::"unknown"
            );"#],
        standard_translation(),
    );
    let dec = evaluate(&engine, "read", r#"{ "other": "x" }"#, &ctx("alice"));
    assert_eq!(dec.effect, PolicyEffect::Allow);
}

#[test]
fn per_decision_point_resource_type_takes_precedence_over_catchall() {
    let engine = build(
        &[r#"permit(
                principal,
                action == Action::"read",
                resource == Document::"x"
            );"#],
        vec![entry("read", "Document", "/doc"), entry("*", "Tool", "")],
    );
    let dec = evaluate(&engine, "read", r#"{ "doc": "x" }"#, &ctx("alice"));
    assert_eq!(dec.effect, PolicyEffect::Allow);
}

#[test]
fn entities_store_enables_group_membership_policies() {
    let policies = policy_files(&[r#"permit(
            principal in Group::"sec",
            action == Action::"read",
            resource == Tool::"orders"
        );"#]);
    let entities = file(
        "entities.json",
        r#"[
                {"uid": {"type":"User","id":"alice"},"attrs":{},"parents":[{"type":"Group","id":"sec"}]},
                {"uid": {"type":"User","id":"bob"},"attrs":{},"parents":[]},
                {"uid": {"type":"Group","id":"sec"},"attrs":{},"parents":[]}
            ]"#,
    );
    let engine = Engine {
        config: config(standard_translation()),
        bundle: parse_full_bundle(Ok(policies), &None, &entities).unwrap_or_else(|e| panic!("{e:?}")),
    };
    let dec = evaluate(&engine, "read", r#"{"tool": "orders"}"#, &ctx("alice"));
    assert_eq!(dec.effect, PolicyEffect::Allow);
    let dec = evaluate(&engine, "read", r#"{"tool": "orders"}"#, &ctx("bob"));
    assert_eq!(dec.effect, PolicyEffect::NotApplicable);
}

#[test]
fn include_input_as_context_makes_policies_see_input() {
    let mut engine = build(
        &[r#"permit(
            principal,
            action == Action::"call",
            resource
        ) when {
            context has env && context.env == "prod"
        };"#],
        standard_translation(),
    );
    engine.config.include_input_as_context = true;
    let dec = evaluate(&engine, "call", r#"{"tool": "x", "env": "prod"}"#, &ctx("alice"));
    assert_eq!(dec.effect, PolicyEffect::Allow);
    let dec = evaluate(&engine, "call", r#"{"tool": "x", "env": "dev"}"#, &ctx("alice"));
    assert_eq!(dec.effect, PolicyEffect::NotApplicable);
}

#[test]
fn input_is_unseen_unless_it_is_asked_for() {
    let engine = build(
        &[r#"permit(principal, action, resource) when { context has env };"#],
        standard_translation(),
    );
    let dec = evaluate(&engine, "call", r#"{"tool": "x", "env": "prod"}"#, &ctx("alice"));
    assert_eq!(dec.effect, PolicyEffect::NotApplicable);
}

#[test]
fn input_that_is_no_object_is_seen_as_value() {
    let mut engine = build(
        &[r#"permit(principal, action, resource) when { context.value == 7 };"#],
        vec![entry("*", "Tool", "")],
    );
    engine.config.include_input_as_context = true;
    let dec = evaluate(&engine, "call", "7", &ctx("alice"));
    assert_eq!(dec.effect, PolicyEffect::Allow);
    let dec = evaluate(&engine, "call", "8", &ctx("alice"));
    assert_eq!(dec.effect, PolicyEffect::NotApplicable);
}

#[test]
fn schema_validation_rejects_action_not_in_schema() {
    let policies = policy_files(&[r#"permit(
            principal,
            action == Action::"undeclared",
            resource
        );"#]);
    let schema = file(
        "schema.cedarschema.json",
        r#"{
                "": {
                    "entityTypes": {
                        "User": {},
                        "Tool": {}
                    },
                    "actions": {
                        "read": {
                            "appliesTo": {
                                "principalTypes": ["User"],
                                "resourceTypes": ["Tool"]
                            }
                        }
                    }
                }
            }"#,
    );
    let result = parse_full_bundle(Ok(policies), &schema, &None);
    assert!(result.is_err(), "expected schema-incompatible policy to refuse load");
}

const READ_SCHEMA: &str = r#"
                entity User;
                entity Tool;
                action read appliesTo {
                    principal: [User],
                    resource: [Tool]
                };
            "#;

#[test]
fn schema_loaded_from_human_syntax_path() {
    let policies = policy_files(&[r#"permit(
            principal,
            action == Action::"read",
            resource
        );"#]);
    let schema = file("schema.cedarschema", READ_SCHEMA);
    let engine = Engine {
        config: config(standard_translation()),
        bundle: parse_full_bundle(Ok(policies), &schema, &None).unwrap_or_else(|e| panic!("{e:?}")),
    };
    let dec = evaluate(&engine, "read", r#"{"tool": "orders"}"#, &ctx("alice"));
    assert_eq!(dec.effect, PolicyEffect::Allow);
}

#[test]
fn requests_are_checked_against_the_schema() {
    let policies = policy_files(&[r#"permit(principal, action, resource);"#]);
    let schema = file("schema.cedarschema", READ_SCHEMA);
    let engine = Engine {
        config: config(standard_translation()),
        bundle: parse_full_bundle(Ok(policies), &schema, &None).unwrap_or_else(|e| panic!("{e:?}")),
    };
    let dec = evaluate(&engine, "write", r#"{"tool": "orders"}"#, &ctx("alice"));
    assert_eq!(dec.effect, PolicyEffect::Deny);
    assert!(dec.reason.as_ref().unwrap().starts_with("cedar translate: invalid Cedar request: "));
    assert_eq!(host_outcome_label(&dec), "error");
}

#[test]
fn context_is_checked_against_the_schema() {
    let policies = policy_files(&[r#"permit(principal, action, resource);"#]);
    let schema = file("schema.cedarschema", READ_SCHEMA);
    let mut engine = Engine {
        config: config(standard_translation()),
        bundle: parse_full_bundle(Ok(policies), &schema, &None).unwrap_or_else(|e| panic!("{e:?}")),
    };
    engine.config.include_input_as_context = true;
    let dec = evaluate(&engine, "read", r#"{"tool": "orders"}"#, &ctx("alice"));
    assert_eq!(dec.effect, PolicyEffect::Deny);
    let reason = dec.reason.unwrap();
    assert!(
        reason.starts_with("cedar translate: input → context translation failed: ")
            || reason.starts_with("cedar translate: invalid Cedar request: "),
        "{reason}"
    );
}

#[test]
fn permit_with_advice_emits_obligation_on_allow() {
    let engine = build(
        &[r#"@advice("audit.emit:{\"level\":\"info\"}")
                permit(
                    principal == User::"alice",
                    action == Action::"read",
                    resource == Tool::"orders"
                );"#],
        standard_translation(),
    );
    let dec = evaluate(&engine, "read", r#"{ "tool": "orders" }"#, &ctx("alice"));
    assert_eq!(dec.effect, PolicyEffect::Allow);
    assert_eq!(dec.obligations.len(), 1);
    assert_eq!(dec.obligations[0].kind, "audit.emit");
    assert_eq!(dec.obligations[0].args, json(r#"{ "level": "info" }"#));
    assert!(dec.redactions.is_empty());
}

#[test]
fn permit_with_redact_emits_redaction_on_allow() {
    let engine = build(
        &[r#"@redact("/result/credit_card")
                permit(
                    principal == User::"alice",
                    action == Action::"read",
                    resource == Tool::"orders"
                );"#],
        standard_translation(),
    );
    let dec = evaluate(&engine, "read", r#"{ "tool": "orders" }"#, &ctx("alice"));
    assert_eq!(dec.effect, PolicyEffect::Allow);
    assert_eq!(dec.redactions.len(), 1);
    assert_eq!(dec.redactions[0].json_pointer, "/result/credit_card");
    assert_eq!(dec.redactions[0].replacement, Json::Text("***".to_owned()));
}

#[test]
fn redact_carries_its_pointer_verbatim() {
    let engine = build(
        &[r#"@redact(" /a ") permit(principal, action, resource);"#],
        standard_translation(),
    );
    let dec = evaluate(&engine, "read", r#"{ "tool": "orders" }"#, &ctx("alice"));
    assert!(dec.obligations.is_empty());
    assert_eq!(dec.redactions.len(), 1);
    assert_eq!(dec.redactions[0].json_pointer, " /a ");
    assert_eq!(dec.redactions[0].replacement, Json::Text("***".to_owned()));
}

#[test]
fn matched_permits_stack_their_advice() {
    let engine = build(
        &[
            r#"@advice("audit.emit:{\"level\":\"info\"}")
                @redact("/result/email")
                permit(
                    principal == User::"alice",
                    action == Action::"read",
                    resource == Tool::"orders"
                );"#,
            r#"@advice("notify.operator:{\"channel\":\"sec-ops\"}")
                @redact("/result/ssn")
                permit(
                    principal,
                    action == Action::"read",
                    resource
                );"#,
        ],
        standard_translation(),
    );
    let dec = evaluate(&engine, "read", r#"{ "tool": "orders" }"#, &ctx("alice"));
    assert_eq!(dec.effect, PolicyEffect::Allow);
    assert_eq!(
        dec.obligations.len(),
        2,
        "both matched permits' @advice annotations should stack"
    );
    let kinds: std::collections::BTreeSet<_> =
        dec.obligations.iter().map(|o| o.kind.as_str()).collect();
    assert!(kinds.contains("audit.emit"));
    assert!(kinds.contains("notify.operator"));
    assert_eq!(dec.redactions.len(), 2);
    let pointers: std::collections::BTreeSet<_> =
        dec.redactions.iter().map(|r| r.json_pointer.as_str()).collect();
    assert!(pointers.contains("/result/email"));
    assert!(pointers.contains("/result/ssn"));
}

#[test]
fn forbid_with_advice_emits_obligation_on_deny() {
    let engine = build(
        &[
            r#"permit(principal, action, resource);"#,
            r#"@policy_id("forbid-write")
                @advice("audit.emit:{\"level\":\"warn\",\"event\":\"forbidden_write\"}")
                @redact("/result/secret")
                forbid(
                    principal,
                    action == Action::"write",
                    resource
                );"#,
        ],
        standard_translation(),
    );
    let dec = evaluate(&engine, "write", r#"{ "tool": "orders" }"#, &ctx("alice"));
    assert_eq!(dec.effect, PolicyEffect::Deny);
    assert_eq!(dec.obligations.len(), 1);
    assert_eq!(dec.obligations[0].kind, "audit.emit");
    assert_eq!(
        dec.obligations[0].args,
        json(r#"{ "level": "warn", "event": "forbidden_write" }"#)
    );
    assert!(dec.redactions.is_empty(), "@redact MUST NOT apply on Deny — payload is blocked");
}

#[test]
fn permits_without_annotations_emit_no_obligations_or_redactions() {
    let engine = build(&[ALICE_READS_ORDERS], standard_translation());
    let dec = evaluate(&engine, "read", r#"{ "tool": "orders" }"#, &ctx("alice"));
    assert_eq!(dec.effect, PolicyEffect::Allow);
    assert!(dec.obligations.is_empty());
    assert!(dec.redactions.is_empty());
}

#[test]
fn unknown_annotations_are_ignored() {
    let engine = build(
        &[r#"@policy_id("readonly-orders")
                @description("anyone can read orders")
                @owner("sec-team")
                permit(
                    principal,
                    action == Action::"read",
                    resource == Tool::"orders"
                );"#],
        standard_translation(),
    );
    let dec = evaluate(&engine, "read", r#"{ "tool": "orders" }"#, &ctx("alice"));
    assert_eq!(dec.effect, PolicyEffect::Allow);
    assert!(dec.obligations.is_empty());
    assert!(dec.redactions.is_empty());
}

#[test]
fn redact_only_extracts_when_decision_allow() {
    let engine = build(
        &[
            r#"@redact("/result/private")
                permit(
                    principal,
                    action == Action::"read",
                    resource
                );"#,
            r#"forbid(
                    principal == User::"banned",
                    action,
                    resource
                );"#,
        ],
        standard_translation(),
    );
    let dec = evaluate(&engine, "read", r#"{ "tool": "orders" }"#, &ctx("banned"));
    assert_eq!(dec.effect, PolicyEffect::Deny);
    assert!(dec.redactions.is_empty());
}

#[test]
fn nothing_is_allowed_without_a_permit() {
    let engine = build(
        &[r#"forbid(principal == User::"bob", action, resource);"#],
        standard_translation(),
    );
    let dec = evaluate(&engine, "read", r#"{ "tool": "orders" }"#, &ctx("alice"));
    assert_eq!(dec.effect, PolicyEffect::NotApplicable);
}

#[test]
fn an_allowed_request_can_come_without_reasons() {
    let policies = policy_files(&[
        r#"@advice("k") permit(principal, action, resource);"#,
        r#"forbid(principal, action, resource) when { principal.dept == "sales" };"#,
    ]);
    let entities = file(
        "entities.json",
        r#"[{
            "uid": {"type": "User", "id": "alice"},
            "attrs": {"dept": {"__extn": {"fn": "unknown", "arg": "x"}}},
            "parents": []
        }]"#,
    );
    let engine = Engine {
        config: config(standard_translation()),
        bundle: parse_full_bundle(Ok(policies), &None, &entities).unwrap_or_else(|e| panic!("{e:?}")),
    };
    let dec = evaluate(&engine, "read", r#"{"tool": "orders"}"#, &ctx("alice"));
    assert_eq!(dec.effect, PolicyEffect::Allow);
    assert!(dec.obligations.is_empty());
    assert!(dec.reason.is_none());
}

#[test]
fn several_forbids_are_all_named() {
    let engine = build(
        &["forbid(principal, action, resource);", "forbid(principal, action, resource);"],
        standard_translation(),
    );
    let dec = evaluate(&engine, "read", r#"{ "tool": "orders" }"#, &ctx("alice"));
    let reason = dec.reason.unwrap();
    assert!(
        reason == "cedar forbid: policy0, policy1" || reason == "cedar forbid: policy1, policy0",
        "{reason}"
    );
}

#[test]
fn malformed_annotations_are_skipped() {
    let engine = build(
        &[r#"@advice(":x")
                @redact("  ")
                permit(principal, action, resource);"#],
        standard_translation(),
    );
    let dec = evaluate(&engine, "read", r#"{ "tool": "orders" }"#, &ctx("alice"));
    assert_eq!(dec.effect, PolicyEffect::Allow);
    assert!(dec.obligations.is_empty());
    assert!(dec.redactions.is_empty());
}

#[test]
fn uncovered_decision_point_is_denied() {
    let engine =
        build(&["permit(principal, action, resource);"], vec![entry("read", "Tool", "/tool")]);
    let dec = evaluate(&engine, "write", r#"{ "tool": "orders" }"#, &ctx("alice"));
    assert_eq!(dec.effect, PolicyEffect::Deny);
    assert_eq!(
        dec.reason.as_ref().unwrap(),
        "cedar translate: no resource_types entry covers decision_point `write` (and no `*` \
         catch-all configured)"
    );
    assert_eq!(host_outcome_label(&dec), "error");
}

#[test]
fn refused_uids_are_denied() {
    let mut engine = build(&["permit(principal, action, resource);"], standard_translation());
    engine.config.translation.principal_type = "not a type".to_owned();
    let dec = evaluate(&engine, "read", r#"{ "tool": "orders" }"#, &ctx("alice"));
    assert!(dec.reason.unwrap().starts_with("cedar translate: invalid principal UID: "));

    let mut engine = build(&["permit(principal, action, resource);"], standard_translation());
    engine.config.translation.action_namespace = "not a type".to_owned();
    let dec = evaluate(&engine, "read", r#"{ "tool": "orders" }"#, &ctx("alice"));
    assert!(dec.reason.unwrap().starts_with("cedar translate: invalid action UID: "));

    let engine =
        build(&["permit(principal, action, resource);"], vec![entry("*", "not a type", "/tool")]);
    let dec = evaluate(&engine, "read", r#"{ "tool": "orders" }"#, &ctx("alice"));
    assert!(dec.reason.unwrap().starts_with("cedar translate: invalid resource UID: "));
}

#[test]
fn quoted_ids_name_the_entity_they_hold() {
    let engine = build(
        &[r#"permit(principal == User::"a\"b\\c", action, resource);"#],
        standard_translation(),
    );
    let dec = evaluate(&engine, "read", r#"{ "tool": "orders" }"#, &ctx("a\"b\\c"));
    assert_eq!(dec.effect, PolicyEffect::Allow);
    let dec = evaluate(&engine, "read", r#"{ "tool": "orders" }"#, &ctx("a\"b"));
    assert_eq!(dec.effect, PolicyEffect::NotApplicable);
}

#[test]
fn resource_ids_of_other_kinds() {
    let engine = build(
        &[
            r#"@advice("number") permit(principal, action, resource == Tool::"42");"#,
            r#"@advice("flag") permit(principal, action, resource == Tool::"true");"#,
            r#"@advice("list") permit(principal, action, resource == Tool::"[1,2]");"#,
            r#"@advice("none") permit(principal, action, resource == Tool::"null");"#,
        ],
        standard_translation(),
    );
    let kind = |input: &str| {
        let dec = evaluate(&engine, "read", input, &ctx("alice"));
        assert_eq!(dec.effect, PolicyEffect::Allow);
        dec.obligations[0].kind.clone()
    };
    assert_eq!(kind(r#"{ "tool": 42 }"#), "number");
    assert_eq!(kind(r#"{ "tool": true }"#), "flag");
    assert_eq!(kind(r#"{ "tool": [1, 2] }"#), "list");
    assert_eq!(kind(r#"{ "tool": null }"#), "none");
}

#[test]
fn unspecified_resource_where_no_path_is_configured() {
    let engine = build(
        &[r#"permit(principal, action, resource == Tool::"unspecified");"#],
        vec![entry("*", "Tool", "")],
    );
    let dec = evaluate(&engine, "read", r#"{ "tool": "orders" }"#, &ctx("alice"));
    assert_eq!(dec.effect, PolicyEffect::Allow);
}

#[test]
fn labels_of_decisions() {
    let engine = build(&[ALICE_READS_ORDERS], standard_translation());
    let dec = evaluate(&engine, "read", r#"{ "tool": "orders" }"#, &ctx("alice"));
    assert_eq!((decision_label(&dec), host_outcome_label(&dec)), ("allow", "allow"));
    let dec = evaluate(&engine, "read", r#"{ "tool": "orders" }"#, &ctx("bob"));
    assert_eq!((decision_label(&dec), host_outcome_label(&dec)), ("not_applicable", "allow"));
    let dec = PolicyDecision::deny("cedar forbid: policy0".to_owned(), "v");
    assert_eq!((decision_label(&dec), host_outcome_label(&dec)), ("deny", "deny"));
    let dec = PolicyDecision::deny("cedar translate: x".to_owned(), "v");
    assert_eq!((decision_label(&dec), host_outcome_label(&dec)), ("deny", "error"));
    let dec = PolicyDecision::plain(PolicyEffect::Deny, None, "v");
    assert_eq!(host_outcome_label(&dec), "deny");
}

fn matched(id: &str, forbids: bool, annotations: &[(&str, &str)]) -> MatchedPolicy {
    MatchedPolicy {
        id: id.to_owned(),
        forbids,
        annotations: annotations.iter().map(|(k, v)| (k.to_string(), v.to_string())).collect(),
    }
}

#[test]
fn decide_from_given_answers() {
    let policies = vec![
        matched("p", false, &[("advice", "a"), ("redact", "/x")]),
        matched("f", true, &[("advice", "b:1"), ("redact", "/y")]),
        matched("g", true, &[]),
    ];
    let dec = decide(DefaultDenyMode::Deny, true, &policies, "v");
    assert_eq!(dec.effect, PolicyEffect::Allow);
    assert_eq!(dec.obligations.len(), 2);
    assert_eq!(dec.redactions.len(), 2);
    let dec = decide(DefaultDenyMode::NotApplicable, false, &policies, "v");
    assert_eq!(dec.effect, PolicyEffect::Deny);
    assert_eq!(dec.reason.as_ref().unwrap(), "cedar forbid: f, g");
    assert_eq!(dec.obligations.len(), 1);
    assert_eq!(dec.obligations[0].kind, "b");
    assert_eq!(dec.obligations[0].args, Json::unsigned(1));
    assert!(dec.redactions.is_empty());
    let permits = vec![matched("p", false, &[("advice", "a")])];
    let dec = decide(DefaultDenyMode::NotApplicable, false, &permits, "v");
    assert_eq!(dec.effect, PolicyEffect::NotApplicable);
    assert!(dec.obligations.is_empty());
    let dec = decide(DefaultDenyMode::Deny, false, &permits, "v");
    assert_eq!(dec.reason.as_ref().unwrap(), "cedar: default-deny (no policy matched)");
}
