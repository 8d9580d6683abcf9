//! What the gateway and the policy engine exchange: requests, decisions, audit events.

use vstd::prelude::*;
use vstd::string::*;

use crate::json::{Json, JsonValue};
use crate::text::texts;

verus! {

/// Who makes a request.
#[derive(Debug)]
pub struct PluginIdentity {
    pub kind: String,
    pub trust_level: String,
    pub subject_id: Option<String>,
    pub auth_provider: Option<String>,
    pub issuer: Option<String>,
    pub roles: Vec<String>,
    pub groups: Vec<String>,
    pub scopes: Vec<String>,
    pub attributes: Vec<(String, Json)>,
}

/// Who makes a request, as a mathematical value.
pub struct Identity {
    pub kind: Seq<char>,
    pub trust_level: Seq<char>,
    pub subject_id: Option<Seq<char>>,
    pub auth_provider: Option<Seq<char>>,
    pub issuer: Option<Seq<char>>,
    pub roles: Seq<Seq<char>>,
    pub groups: Seq<Seq<char>>,
    pub scopes: Seq<Seq<char>>,
    pub attributes: Seq<(Seq<char>, JsonValue)>,
}

/// The text that an optional string holds.
pub open spec fn text_of(s: Option<String>) -> Option<Seq<char>> {
    match s {
        Some(s) => Some(s@),
        None => None,
    }
}

/// The names and values of attributes.
pub open spec fn attribute_values(attributes: Seq<(String, Json)>) -> Seq<(Seq<char>, JsonValue)> {
    attributes.map_values(|a: (String, Json)| (a.0@, a.1@))
}

impl View for PluginIdentity {
    type V = Identity;

    open spec fn view(&self) -> Identity {
        Identity {
            kind: self.kind@,
            trust_level: self.trust_level@,
            subject_id: text_of(self.subject_id),
            auth_provider: text_of(self.auth_provider),
            issuer: text_of(self.issuer),
            roles: texts(self.roles@),
            groups: texts(self.groups@),
            scopes: texts(self.scopes@),
            attributes: attribute_values(self.attributes@),
        }
    }
}

/// A copy of an optional string.
fn copy_text(s: &Option<String>) -> (r: Option<String>)
    ensures
        text_of(r) == text_of(*s),
{
    match s {
        Some(s) => Some(s.clone()),
        None => None,
    }
}

/// A copy of a list of strings.
pub fn copy_texts(v: &Vec<String>) -> (r: Vec<String>)
    ensures
        texts(r@) == texts(v@),
{
    let mut out: Vec<String> = Vec::new();
    let mut i: usize = 0;
    while i < v.len()
        invariant
            i <= v@.len(),
            out@.len() == i,
            forall|j: int| 0 <= j < i ==> (#[trigger] out@[j])@ == v@[j]@,
        decreases v@.len() - i,
    {
        out.push(v[i].clone());
        i += 1;
    }
    assert(texts(out@) == texts(v@));
    out
}

impl PluginIdentity {
    /// The same identity once more.
    pub fn duplicate(&self) -> (r: PluginIdentity)
        ensures
            r@ == self@,
    {
        let mut attributes: Vec<(String, Json)> = Vec::new();
        let mut i: usize = 0;
        while i < self.attributes.len()
            invariant
                i <= self.attributes@.len(),
                attributes@.len() == i,
                forall|j: int|
                    0 <= j < i ==> (#[trigger] attributes@[j]).0@ == self.attributes@[j].0@
                        && attributes@[j].1@ == self.attributes@[j].1@,
            decreases self.attributes@.len() - i,
        {
            attributes.push((self.attributes[i].0.clone(), self.attributes[i].1.duplicate()));
            i += 1;
        }
        assert(attribute_values(attributes@) == attribute_values(self.attributes@));
        PluginIdentity {
            kind: self.kind.clone(),
            trust_level: self.trust_level.clone(),
            subject_id: copy_text(&self.subject_id),
            auth_provider: copy_text(&self.auth_provider),
            issuer: copy_text(&self.issuer),
            roles: copy_texts(&self.roles),
            groups: copy_texts(&self.groups),
            scopes: copy_texts(&self.scopes),
            attributes,
        }
    }
}

/// The circumstances of a request.
#[derive(Debug)]
pub struct PluginContext {
    pub request_id: String,
    pub session_id: Option<String>,
    pub tool_name: String,
    pub surface: String,
    pub identity: PluginIdentity,
    pub transport: String,
}

/// What a policy engine makes of a request.
#[derive(Debug, Clone, Copy, PartialEq, Eq, Structural)]
pub enum PolicyEffect {
    Allow,
    Deny,
    /// The engine has no opinion.
    NotApplicable,
}

/// Something that is to be done when a decision is carried out.
#[derive(Debug)]
pub struct Obligation {
    pub kind: String,
    pub args: Json,
}

/// A part of the payload that is to be replaced.
#[derive(Debug)]
pub struct Redaction {
    pub json_pointer: String,
    pub replacement: Json,
}

/// An obligation, as a mathematical value.
pub struct ObligationValue {
    pub kind: Seq<char>,
    pub args: JsonValue,
}

/// A redaction, as a mathematical value.
pub struct RedactionValue {
    pub json_pointer: Seq<char>,
    pub replacement: JsonValue,
}

impl View for Obligation {
    type V = ObligationValue;

    open spec fn view(&self) -> ObligationValue {
        ObligationValue { kind: self.kind@, args: self.args@ }
    }
}

impl View for Redaction {
    type V = RedactionValue;

    open spec fn view(&self) -> RedactionValue {
        RedactionValue { json_pointer: self.json_pointer@, replacement: self.replacement@ }
    }
}

/// The values of a list of obligations.
pub open spec fn obligation_values(v: Seq<Obligation>) -> Seq<ObligationValue> {
    v.map_values(|o: Obligation| o@)
}

/// The values of a list of redactions.
pub open spec fn redaction_values(v: Seq<Redaction>) -> Seq<RedactionValue> {
    v.map_values(|r: Redaction| r@)
}

/// What a policy engine decides on a request.
#[derive(Debug)]
pub struct PolicyDecision {
    pub effect: PolicyEffect,
    pub reason: Option<String>,
    pub obligations: Vec<Obligation>,
    pub redactions: Vec<Redaction>,
    pub attributes: Vec<(String, Json)>,
    pub policy_version: String,
}

/// A decision, as a mathematical value.
pub struct Verdict {
    pub effect: PolicyEffect,
    pub reason: Option<Seq<char>>,
    pub obligations: Seq<ObligationValue>,
    pub redactions: Seq<RedactionValue>,
    pub attributes: Seq<(Seq<char>, JsonValue)>,
    pub policy_version: Seq<char>,
}

impl View for PolicyDecision {
    type V = Verdict;

    open spec fn view(&self) -> Verdict {
        Verdict {
            effect: self.effect,
            reason: text_of(self.reason),
            obligations: obligation_values(self.obligations@),
            redactions: redaction_values(self.redactions@),
            attributes: attribute_values(self.attributes@),
            policy_version: self.policy_version@,
        }
    }
}

impl Verdict {
    /// A decision with this effect and reason, and nothing more.
    pub open spec fn plain(
        effect: PolicyEffect,
        reason: Option<Seq<char>>,
        version: Seq<char>,
    ) -> Verdict {
        Verdict {
            effect,
            reason,
            obligations: Seq::empty(),
            redactions: Seq::empty(),
            attributes: Seq::empty(),
            policy_version: version,
        }
    }
}

impl PolicyDecision {
    /// A decision with this effect, reason, obligations and redactions.
    pub fn new(
        effect: PolicyEffect,
        reason: Option<String>,
        obligations: Vec<Obligation>,
        redactions: Vec<Redaction>,
        version: &str,
    ) -> (r: PolicyDecision)
        ensures
            r@ == (Verdict {
                effect,
                reason: text_of(reason),
                obligations: obligation_values(obligations@),
                redactions: redaction_values(redactions@),
                attributes: Seq::empty(),
                policy_version: version@,
            }),
    {
        let attributes: Vec<(String, Json)> = Vec::new();
        assert(attribute_values(attributes@) == Seq::<(Seq<char>, JsonValue)>::empty());
        PolicyDecision {
            effect,
            reason,
            obligations,
            redactions,
            attributes,
            policy_version: version.to_owned(),
        }
    }

    /// A decision with this effect and reason, and nothing more.
    pub fn plain(effect: PolicyEffect, reason: Option<String>, version: &str) -> (r: PolicyDecision)
        ensures
            r@ == Verdict::plain(effect, text_of(reason), version@),
    {
        let obligations: Vec<Obligation> = Vec::new();
        let redactions: Vec<Redaction> = Vec::new();
        assert(obligation_values(obligations@) == Seq::<ObligationValue>::empty());
        assert(redaction_values(redactions@) == Seq::<RedactionValue>::empty());
        PolicyDecision::new(effect, reason, obligations, redactions, version)
    }

    /// A denial for this reason.
    pub fn deny(reason: String, version: &str) -> (r: PolicyDecision)
        ensures
            r@ == Verdict::plain(PolicyEffect::Deny, Some(reason@), version@),
    {
        PolicyDecision::plain(PolicyEffect::Deny, Some(reason), version)
    }
}

/// Which policies are in force.
#[derive(Debug)]
pub struct PolicyVersion {
    pub hash: String,
    pub loaded_at: String,
    pub source: String,
}

/// How an audited request ended.
#[derive(Debug, Clone, Copy, PartialEq, Eq, Structural)]
pub enum AuditOutcome {
    Denied,
    Failure,
}

/// An entry of the audit log.
#[derive(Debug)]
pub struct AuditEvent {
    pub event_id: String,
    pub occurred_at: String,
    pub actor: PluginIdentity,
    pub action: String,
    pub resource: Option<String>,
    pub outcome: AuditOutcome,
    pub request_id: Option<String>,
    pub node_id: Option<String>,
    pub details: Json,
    pub prev_event_hash: Option<String>,
}

/// An entry of the audit log, as a mathematical value.
pub struct AuditEntry {
    pub event_id: Seq<char>,
    pub occurred_at: Seq<char>,
    pub actor: Identity,
    pub action: Seq<char>,
    pub resource: Option<Seq<char>>,
    pub outcome: AuditOutcome,
    pub request_id: Option<Seq<char>>,
    pub node_id: Option<Seq<char>>,
    pub details: JsonValue,
    pub prev_event_hash: Option<Seq<char>>,
}

impl View for AuditEvent {
    type V = AuditEntry;

    open spec fn view(&self) -> AuditEntry {
        AuditEntry {
            event_id: self.event_id@,
            occurred_at: self.occurred_at@,
            actor: self.actor@,
            action: self.action@,
            resource: text_of(self.resource),
            outcome: self.outcome,
            request_id: text_of(self.request_id),
            node_id: text_of(self.node_id),
            details: self.details@,
            prev_event_hash: text_of(self.prev_event_hash),
        }
    }
}

/// The classes of plugins that this crate provides.
#[derive(Debug, Clone, Copy, PartialEq, Eq, Structural)]
pub enum PluginClass {
    PolicyEngine,
}

/// How a plugin introduces itself.
#[derive(Debug)]
pub struct PluginManifest {
    pub id: String,
    pub version: String,
    pub name: String,
    pub plugin_class: PluginClass,
    pub protocol_version: String,
    pub license: Option<String>,
    pub required_capabilities: Vec<String>,
    pub tags: Vec<String>,
    pub provides: Vec<String>,
    pub provides_schemes: Vec<String>,
    pub module_path_prefix: String,
    pub backend_profile: Option<String>,
}

/// An identity holds what stands in its fields, item for item.
pub proof fn law_identity_holds_its_fields(identity: PluginIdentity, i: int)
    ensures
        identity@.kind == identity.kind@,
        identity@.trust_level == identity.trust_level@,
        match identity.subject_id {
            Some(text) => identity@.subject_id == Some(text@),
            None => identity@.subject_id is None,
        },
        match identity.auth_provider {
            Some(text) => identity@.auth_provider == Some(text@),
            None => identity@.auth_provider is None,
        },
        match identity.issuer {
            Some(text) => identity@.issuer == Some(text@),
            None => identity@.issuer is None,
        },
        identity@.roles.len() == identity.roles@.len(),
        0 <= i < identity.roles@.len() ==> identity@.roles[i] == identity.roles@[i]@,
        identity@.groups.len() == identity.groups@.len(),
        0 <= i < identity.groups@.len() ==> identity@.groups[i] == identity.groups@[i]@,
        identity@.scopes.len() == identity.scopes@.len(),
        0 <= i < identity.scopes@.len() ==> identity@.scopes[i] == identity.scopes@[i]@,
        identity@.attributes.len() == identity.attributes@.len(),
        0 <= i < identity.attributes@.len() ==> identity@.attributes[i] == (
            identity.attributes@[i].0@,
            identity.attributes@[i].1@,
        ),
{
}

/// A decision holds what stands in its fields, item for item.
pub proof fn law_decision_holds_its_fields(decision: PolicyDecision, i: int)
    ensures
        decision@.effect == decision.effect,
        match decision.reason {
            Some(text) => decision@.reason == Some(text@),
            None => decision@.reason is None,
        },
        decision@.obligations.len() == decision.obligations@.len(),
        0 <= i < decision.obligations@.len() ==> decision@.obligations[i].kind
            == decision.obligations@[i].kind@ && decision@.obligations[i].args
            == decision.obligations@[i].args@,
        decision@.redactions.len() == decision.redactions@.len(),
        0 <= i < decision.redactions@.len() ==> decision@.redactions[i].json_pointer
            == decision.redactions@[i].json_pointer@ && decision@.redactions[i].replacement
            == decision.redactions@[i].replacement@,
        decision@.attributes.len() == decision.attributes@.len(),
        0 <= i < decision.attributes@.len() ==> decision@.attributes[i] == (
            decision.attributes@[i].0@,
            decision.attributes@[i].1@,
        ),
        decision@.policy_version == decision.policy_version@,
{
}

/// A decision with nothing more than an effect and a reason has these, its version, and no
/// obligations, redactions and attributes.
pub proof fn law_plain_decisions(
    effect: PolicyEffect,
    reason: Option<Seq<char>>,
    version: Seq<char>,
)
    ensures
        Verdict::plain(effect, reason, version).effect == effect,
        Verdict::plain(effect, reason, version).reason == reason,
        Verdict::plain(effect, reason, version).obligations.len() == 0,
        Verdict::plain(effect, reason, version).redactions.len() == 0,
        Verdict::plain(effect, reason, version).attributes.len() == 0,
        Verdict::plain(effect, reason, version).policy_version == version,
{
}

/// An audit event holds what stands in its fields.
pub proof fn law_event_holds_its_fields(event: AuditEvent)
    ensures
        event@.event_id == event.event_id@,
        event@.occurred_at == event.occurred_at@,
        event@.actor == event.actor@,
        event@.action == event.action@,
        match event.resource {
            Some(text) => event@.resource == Some(text@),
            None => event@.resource is None,
        },
        event@.outcome == event.outcome,
        match event.request_id {
            Some(text) => event@.request_id == Some(text@),
            None => event@.request_id is None,
        },
        match event.node_id {
            Some(text) => event@.node_id == Some(text@),
            None => event@.node_id is None,
        },
        event@.details == event.details@,
        match event.prev_event_hash {
            Some(text) => event@.prev_event_hash == Some(text@),
            None => event@.prev_event_hash is None,
        },
{
}

/// An optional text is the one that the string holds, where there is a string.
pub proof fn law_optional_text(s: String)
    ensures
        text_of(Some(s)) == Some(s@),
        text_of(None) is None,
{
}

} // verus!
