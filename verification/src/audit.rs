//! The audit events of denied requests.

use vstd::prelude::*;
use vstd::string::*;

use crate::bundle::BundleText;
use crate::cedar::{PolicyFacts, RequestHeld};
use crate::config::CedarConfig;
use crate::decision::{
    forbid_reason, host_label, host_outcome_label, ids, law_errors_are_translation_failures,
    verdict_can_be,
};
use crate::engine::{ENGINE_NAME, PLUGIN_ID};
use crate::json::{Json, JsonValue};
use crate::protocol::{
    text_of, AuditEntry, AuditEvent, AuditOutcome, Identity, PluginContext, PluginIdentity,
    PolicyDecision, PolicyEffect, Verdict,
};
use crate::request::{explain, principal_id, principal_id_of};
use crate::text::{
    begins_with, chars_of, decimal, find_char, first_place, is_space, joined, law_prefix,
    law_trimming, lemma_first_place, lemma_place, lemma_trimmed_is_same, push_decimal, same_text,
    starts_with, texts, trim, trimmed,
};

verus! {

/// `s` without the times it begins with `prefix`.
pub open spec fn stripped(s: Seq<char>, prefix: Seq<char>) -> Seq<char>
    decreases s.len(),
{
    if prefix.len() > 0 && begins_with(s, prefix) {
        stripped(s.skip(prefix.len() as int), prefix)
    } else {
        s
    }
}

/// The parts of a list between its commas, without the white space around them and without those
/// that are empty.
pub open spec fn listed(s: Seq<char>) -> Seq<Seq<char>>
    decreases s.len(),
{
    let at = first_place(s, ',');
    let part = trimmed(s.take(at));
    let head = if part.len() > 0 {
        seq![part]
    } else {
        Seq::empty()
    };
    if 0 <= at < s.len() {
        head + listed(s.skip(at + 1))
    } else {
        head
    }
}

/// The ids of the forbids that the reason of a denial names.
pub open spec fn rules_named(reason: Option<Seq<char>>) -> Seq<Seq<char>> {
    match reason {
        Some(text) => if begins_with(text, "cedar forbid:"@) {
            listed(stripped(text, "cedar forbid:"@))
        } else {
            Seq::empty()
        },
        None => Seq::empty(),
    }
}

/// `s` without the times it begins with `prefix`.
pub fn strip<'a>(s: &'a str, prefix: &str) -> (r: &'a str)
    ensures
        r@ == stripped(s@, prefix@),
    decreases s@.len(),
{
    let n: usize = chars_of(prefix).len();
    if n > 0 && starts_with(s, prefix) {
        let len: usize = chars_of(s).len();
        let rest = s.substring_char(n, len);
        assert(s@.subrange(n as int, len as int) == s@.skip(n as int));
        strip(rest, prefix)
    } else {
        s
    }
}

/// The parts of a list between its commas.
pub fn split_list(s: &str) -> (r: Vec<String>)
    ensures
        texts(r@) == listed(s@),
{
    let chars = chars_of(s);
    let mut out: Vec<String> = Vec::new();
    let mut from: usize = 0;
    let mut more: bool = true;
    assert(s@.skip(0) == s@);
    assert(texts(out@) == Seq::<Seq<char>>::empty());
    while more
        invariant
            chars@ == s@,
            from <= chars@.len(),
            more ==> texts(out@) + listed(s@.skip(from as int)) == listed(s@),
            !more ==> texts(out@) == listed(s@),
        decreases
            (if more {
                chars@.len() - from + 1
            } else {
                0
            }),
    {
        let at: usize = find_char(&chars, from, ',');
        let part = trim(s.substring_char(from, at));
        let ghost rest = s@.skip(from as int);
        let ghost before = out@;
        assert(s@.subrange(from as int, at as int) == rest.take(at - from));
        if !part.is_empty() {
            out.push(part.to_owned());
            assert(texts(out@) == texts(before).push(part@));
        }
        if at < chars.len() {
            assert(rest.skip(at - from + 1) == s@.skip(at + 1));
            from = at + 1;
            assert(texts(out@) + listed(s@.skip(from as int)) == texts(before) + listed(rest));
        } else {
            more = false;
            assert(texts(out@) == texts(before) + listed(rest));
        }
    }
    out
}

/// The ids of the forbids that the reason of a denial names.
pub fn matched_rules(reason: &Option<String>) -> (r: Vec<String>)
    ensures
        texts(r@) == rules_named(text_of(*reason)),
{
    if let Some(text) = reason {
        if starts_with(text.as_str(), "cedar forbid:") {
            return split_list(strip(text.as_str(), "cedar forbid:"));
        }
    }
    let none: Vec<String> = Vec::new();
    assert(texts(none@) == Seq::<Seq<char>>::empty());
    none
}

/// Tells whether an id can be told from its neighbours in a list: it is not empty, holds no comma
/// and neither begins nor ends with white space.
pub open spec fn is_plain_id(id: Seq<char>) -> bool {
    &&& id.len() > 0
    &&& !id.contains(',')
    &&& !is_space(id[0])
    &&& !is_space(id.last())
}

proof fn lemma_listed_parts(a: Seq<char>, b: Seq<char>)
    ensures
        listed(a + seq![','] + b) == listed(a) + listed(b),
    decreases a.len(),
{
    let s = a + seq![','] + b;
    let at = first_place(a, ',');
    lemma_place(a, ',');
    assert forall|i: int| 0 <= i < at implies #[trigger] s[i] != ',' by {
        assert(s[i] == a[i]);
    }
    if at < a.len() {
        assert(s[at] == a[at]);
        lemma_first_place(s, ',', at);
        let rest = a.skip(at + 1);
        lemma_listed_parts(rest, b);
        assert(s.take(at) == a.take(at));
        assert(s.skip(at + 1) == rest + seq![','] + b);
        assert(listed(s) == listed(a) + listed(b));
    } else {
        lemma_first_place(s, ',', at);
        assert(s.take(at) == a.take(at));
        assert(s.skip(at + 1) == b);
        assert(listed(s) == listed(a) + listed(b));
    }
}

proof fn lemma_listed_id(id: Seq<char>)
    requires
        is_plain_id(id),
    ensures
        listed(seq![' '] + id) == seq![id],
{
    let s = seq![' '] + id;
    assert forall|i: int| 0 <= i < s.len() implies #[trigger] s[i] != ',' by {
        if i > 0 {
            assert(s[i] == id[i - 1]);
        }
    }
    lemma_first_place(s, ',', s.len() as int);
    assert(s.take(s.len() as int) == s);
    assert(s.drop_first() == id);
    lemma_trimmed_is_same(id);
    assert(trimmed(s) == trimmed(id));
}

proof fn lemma_listed_ids(ids: Seq<Seq<char>>)
    requires
        ids.len() > 0,
        forall|i: int| 0 <= i < ids.len() ==> is_plain_id(#[trigger] ids[i]),
    ensures
        listed(seq![' '] + joined(ids, ", "@)) == ids,
    decreases ids.len(),
{
    reveal_strlit(", ");
    if ids.len() == 1 {
        lemma_listed_id(ids[0]);
        assert(seq![ids[0]] == ids);
    } else {
        let before = ids.drop_last();
        assert forall|i: int| 0 <= i < before.len() implies is_plain_id(#[trigger] before[i]) by {
            assert(before[i] == ids[i]);
        }
        lemma_listed_ids(before);
        lemma_listed_id(ids.last());
        let front = seq![' '] + joined(before, ", "@);
        lemma_listed_parts(front, seq![' '] + ids.last());
        assert(seq![' '] + joined(ids, ", "@) == front + seq![','] + (seq![' '] + ids.last()));
        assert(before + seq![ids.last()] == ids);
    }
}

/// The audit event of a denial names the forbids that the decision was made by, where their ids are
/// plain.
pub proof fn law_rules_are_read_back(forbids: Seq<PolicyFacts>)
    requires
        forbids.len() > 0,
        forall|i: int| 0 <= i < forbids.len() ==> is_plain_id((#[trigger] forbids[i]).id),
    ensures
        rules_named(Some(forbid_reason(forbids))) == ids(forbids),
{
    reveal_strlit("cedar forbid:");
    reveal_strlit("cedar forbid: ");
    let prefix = "cedar forbid:"@;
    let reason = forbid_reason(forbids);
    let rest = seq![' '] + joined(ids(forbids), ", "@);
    assert(reason.take(prefix.len() as int) == prefix);
    assert(reason.skip(prefix.len() as int) == rest);
    assert(rest.take(prefix.len() as int)[0] == ' ' || rest.len() < prefix.len());
    assert(!begins_with(rest, prefix));
    assert(stripped(rest, prefix) == rest);
    assert forall|i: int| 0 <= i < ids(forbids).len() implies is_plain_id(
        #[trigger] ids(forbids)[i],
    ) by {
        assert(ids(forbids)[i] == forbids[i].id);
    }
    lemma_listed_ids(ids(forbids));
}

/// A denial that no forbid made names no rules.
pub proof fn law_other_denials_name_no_rules(detail: Seq<char>)
    ensures
        rules_named(Some("cedar translate: "@ + detail)).len() == 0,
        rules_named(Some("cedar: default-deny (no policy matched)"@)).len() == 0,
        rules_named(None).len() == 0,
{
    reveal_strlit("cedar forbid:");
    reveal_strlit("cedar translate: ");
    reveal_strlit("cedar: default-deny (no policy matched)");
    let prefix = "cedar forbid:"@;
    let a = "cedar translate: "@ + detail;
    let b = "cedar: default-deny (no policy matched)"@;
    assert(a.take(prefix.len() as int)[6] == 't');
    assert(b.take(prefix.len() as int)[5] == ':');
}

/// The identity that stands in where a request names none.
pub open spec fn system_identity() -> Identity {
    Identity {
        kind: "system"@,
        trust_level: "verified"@,
        subject_id: Some(PLUGIN_ID@),
        auth_provider: None,
        issuer: None,
        roles: Seq::empty(),
        groups: Seq::empty(),
        scopes: Seq::empty(),
        attributes: Seq::empty(),
    }
}

/// The identity that stands in where a request names none.
pub fn synthetic_system_identity() -> (r: PluginIdentity)
    ensures
        r@ == system_identity(),
{
    let r = PluginIdentity {
        kind: "system".to_owned(),
        trust_level: "verified".to_owned(),
        subject_id: Some(PLUGIN_ID.to_owned()),
        auth_provider: None,
        issuer: None,
        roles: Vec::new(),
        groups: Vec::new(),
        scopes: Vec::new(),
        attributes: Vec::new(),
    };
    assert(r@.roles == Seq::<Seq<char>>::empty());
    assert(r@.groups == Seq::<Seq<char>>::empty());
    assert(r@.scopes == Seq::<Seq<char>>::empty());
    assert(r@.attributes == Seq::<(Seq<char>, JsonValue)>::empty());
    r
}

/// Who an audit event is put down to: who made the request, or else the system.
pub open spec fn actor_of(identity: Identity) -> Identity {
    if identity.kind.len() == 0 {
        system_identity()
    } else {
        identity
    }
}

/// Who an audit event is put down to.
pub fn actor(identity: &PluginIdentity) -> (r: PluginIdentity)
    ensures
        r@ == actor_of(identity@),
{
    if identity.kind.as_str().is_empty() {
        synthetic_system_identity()
    } else {
        identity.duplicate()
    }
}

/// What is audited: a tool at a decision point.
pub open spec fn resource_uri(tool_name: Seq<char>, decision_point: Seq<char>) -> Seq<char> {
    "tool://"@ + tool_name + "/"@ + decision_point
}

/// The whole milliseconds in so many nanoseconds, as a number of 64 bits.
pub open spec fn whole_millis(nanos: nat) -> nat {
    (nanos / 1_000_000) % 0x1_0000_0000_0000_0000
}

/// What an audit event tells of a denial.
pub open spec fn audit_details(
    config: CedarConfig,
    decision_point: Seq<char>,
    verdict: Verdict,
    context: PluginContext,
    nanos: nat,
    alias: Seq<char>,
) -> JsonValue {
    JsonValue::Object(
        seq![
            ("engine"@, JsonValue::Text(ENGINE_NAME@)),
            ("decision_point"@, JsonValue::Text(decision_point)),
            (
                "subject"@,
                JsonValue::Text(principal_id_of(config, text_of(context.identity.subject_id))),
            ),
            ("resource"@, JsonValue::Text(resource_uri(context.tool_name@, decision_point))),
            (
                "matched_rules"@,
                JsonValue::Array(
                    rules_named(verdict.reason).map_values(|id: Seq<char>| JsonValue::Text(id)),
                ),
            ),
            (
                "reason"@,
                JsonValue::Text(
                    match verdict.reason {
                        Some(text) => text,
                        None => Seq::empty(),
                    },
                ),
            ),
            ("policy_version"@, JsonValue::Text(verdict.policy_version)),
            ("duration_ms"@, JsonValue::Number(decimal(whole_millis(nanos)))),
            ("alias"@, JsonValue::Text(alias)),
        ],
    )
}

/// The audit event of a decision. Only denials have one; it is a failure where the envelope did not
/// translate.
pub open spec fn audited(
    config: CedarConfig,
    decision_point: Seq<char>,
    verdict: Verdict,
    context: PluginContext,
    nanos: nat,
    alias: Seq<char>,
    occurred_at: Seq<char>,
) -> Option<AuditEntry> {
    let failed = host_label(verdict) == "error"@;
    if verdict.effect != PolicyEffect::Deny {
        None
    } else {
        Some(
            AuditEntry {
                event_id: "cedar-"@ + context.request_id@ + "-"@ + decimal(nanos),
                occurred_at,
                actor: actor_of(context.identity@),
                action: if failed {
                    "dev.mcpg.policy.cedar.error"@
                } else {
                    "dev.mcpg.policy.cedar.deny"@
                },
                resource: Some(resource_uri(context.tool_name@, decision_point)),
                outcome: if failed {
                    AuditOutcome::Failure
                } else {
                    AuditOutcome::Denied
                },
                request_id: Some(context.request_id@),
                node_id: None,
                details: audit_details(config, decision_point, verdict, context, nanos, alias),
                prev_event_hash: None,
            },
        )
    }
}

/// A list of texts as a JSON array.
fn text_array(v: &Vec<String>) -> (r: Json)
    ensures
        r@ == JsonValue::Array(texts(v@).map_values(|id: Seq<char>| JsonValue::Text(id))),
{
    let mut items: Vec<Json> = Vec::new();
    let mut i: usize = 0;
    while i < v.len()
        invariant
            i <= v@.len(),
            items@.len() == i,
            forall|j: int| 0 <= j < i ==> (#[trigger] items@[j])@ == JsonValue::Text(v@[j]@),
        decreases v@.len() - i,
    {
        items.push(Json::text(v[i].as_str()));
        i += 1;
    }
    let r = Json::Array(items);
    assert(r@->Array_0 == texts(v@).map_values(|id: Seq<char>| JsonValue::Text(id)));
    r
}

/// A member of a JSON object.
fn named(name: &str, value: Json) -> (r: (String, Json))
    ensures
        r.0@ == name@,
        r.1@ == value@,
{
    (name.to_owned(), value)
}

/// What an audit event tells of a denial.
fn details(
    config: &CedarConfig,
    decision_point: &str,
    decision: &PolicyDecision,
    context: &PluginContext,
    nanos: u128,
    alias: &str,
    uri: &str,
) -> (r: Json)
    requires
        uri@ == resource_uri(context.tool_name@, decision_point@),
    ensures
        r@ == audit_details(*config, decision_point@, decision@, *context, nanos as nat, alias@),
{
    let millis: u64 = ((nanos / 1_000_000) % 0x1_0000_0000_0000_0000) as u64;
    let reason = match &decision.reason {
        Some(text) => Json::text(text.as_str()),
        None => Json::Text(String::new()),
    };
    let mut members: Vec<(String, Json)> = Vec::new();
    members.push(named("engine", Json::text(ENGINE_NAME)));
    members.push(named("decision_point", Json::text(decision_point)));
    members.push(named("subject", Json::text(principal_id(config, &context.identity))));
    members.push(named("resource", Json::text(uri)));
    members.push(named("matched_rules", text_array(&matched_rules(&decision.reason))));
    members.push(named("reason", reason));
    members.push(named("policy_version", Json::text(decision.policy_version.as_str())));
    members.push(named("duration_ms", Json::unsigned(millis)));
    members.push(named("alias", Json::text(alias)));
    let r = Json::Object(members);
    assert(r@->Object_0 == audit_details(
        *config,
        decision_point@,
        decision@,
        *context,
        nanos as nat,
        alias@,
    )->Object_0);
    r
}

/// The audit event of a decision that took so many nanoseconds.
pub fn audit_event(
    config: &CedarConfig,
    decision_point: &str,
    decision: &PolicyDecision,
    context: &PluginContext,
    nanos: u128,
    alias: &str,
    occurred_at: &str,
) -> (r: Option<AuditEvent>)
    ensures
        match r {
            Some(event) => audited(
                *config,
                decision_point@,
                decision@,
                *context,
                nanos as nat,
                alias@,
                occurred_at@,
            ) == Some(event@),
            None => audited(
                *config,
                decision_point@,
                decision@,
                *context,
                nanos as nat,
                alias@,
                occurred_at@,
            ) is None,
        },
{
    match decision.effect {
        PolicyEffect::Deny => {},
        _ => return None,
    }
    let failed = same_text(host_outcome_label(decision), "error");
    let mut event_id = explain("cedar-", context.request_id.as_str());
    event_id.append("-");
    push_decimal(&mut event_id, nanos);
    let mut uri = explain("tool://", context.tool_name.as_str());
    uri.append("/");
    uri.append(decision_point);
    let details = details(
        config,
        decision_point,
        decision,
        context,
        nanos,
        alias,
        uri.as_str(),
    );
    let action = if failed {
        "dev.mcpg.policy.cedar.error".to_owned()
    } else {
        "dev.mcpg.policy.cedar.deny".to_owned()
    };
    let outcome = if failed {
        AuditOutcome::Failure
    } else {
        AuditOutcome::Denied
    };
    Some(
        AuditEvent {
            event_id,
            occurred_at: occurred_at.to_owned(),
            actor: actor(&context.identity),
            action,
            resource: Some(uri),
            outcome,
            request_id: Some(context.request_id.clone()),
            node_id: None,
            details,
            prev_event_hash: None,
        },
    )
}

/// Exactly the denials are audited, and exactly those of envelopes that did not translate as
/// failures.
pub proof fn law_exactly_denials_are_audited(
    config: CedarConfig,
    bundle: BundleText,
    version: Seq<char>,
    request: Result<RequestHeld, Seq<char>>,
    verdict: Verdict,
    decision_point: Seq<char>,
    context: PluginContext,
    nanos: nat,
    alias: Seq<char>,
    occurred_at: Seq<char>,
)
    requires
        verdict_can_be(config, bundle, version, request, verdict),
    ensures
        ({
            let event = audited(
                config,
                decision_point,
                verdict,
                context,
                nanos,
                alias,
                occurred_at,
            );
            &&& event is Some <==> verdict.effect == PolicyEffect::Deny
            &&& event is Some ==> (event->0.outcome == AuditOutcome::Failure <==> request is Err)
        }),
{
    law_errors_are_translation_failures(config, bundle, version, request, verdict);
}

/// A reason names rules only where it begins as that of a denial by forbids does. What follows, after
/// any further times it begins so, is read as a list.
pub proof fn law_rules_of_a_reason(reason: Seq<char>, rest: Seq<char>)
    ensures
        rules_named(None).len() == 0,
        (forall|tail: Seq<char>| reason != #[trigger] ("cedar forbid:"@ + tail)) ==> rules_named(
            Some(reason),
        ).len() == 0,
        rules_named(Some("cedar forbid:"@ + ("cedar forbid:"@ + rest))) == rules_named(
            Some("cedar forbid:"@ + rest),
        ),
        (forall|tail: Seq<char>| rest != #[trigger] ("cedar forbid:"@ + tail)) ==> rules_named(
            Some("cedar forbid:"@ + rest),
        ) == listed(rest),
{
    reveal_strlit("cedar forbid:");
    let prefix = "cedar forbid:"@;
    assert(prefix.len() == 13);
    let once = prefix + rest;
    let twice = prefix + once;
    law_prefix(reason, prefix);
    law_prefix(rest, prefix);
    law_prefix(once, prefix);
    law_prefix(twice, prefix);
    assert(once.skip(prefix.len() as int) == rest);
    assert(twice.skip(prefix.len() as int) == once);
    assert(stripped(twice, prefix) == stripped(once, prefix));
    assert(stripped(once, prefix) == stripped(rest, prefix));
}

/// A list is read part by part: a comma parts what stands before it from what stands after it, and a
/// part without commas counts, without the white space around it, unless it is blank.
pub proof fn law_list_part_by_part(a: Seq<char>, b: Seq<char>, part: Seq<char>)
    requires
        forall|i: int| 0 <= i < part.len() ==> #[trigger] part[i] != ',',
    ensures
        listed(a + seq![','] + b) == listed(a) + listed(b),
        (forall|i: int| 0 <= i < part.len() ==> is_space(#[trigger] part[i])) ==> listed(part).len()
            == 0,
        (exists|i: int| 0 <= i < part.len() && !is_space(#[trigger] part[i])) ==> {
            &&& listed(part).len() == 1
            &&& listed(part)[0].len() > 0
            &&& !is_space(listed(part)[0][0])
            &&& !is_space(listed(part)[0].last())
            &&& exists|x: Seq<char>, y: Seq<char>|
                part == #[trigger] (x + listed(part)[0] + y) && (forall|i: int|
                    0 <= i < x.len() ==> is_space(#[trigger] x[i])) && (forall|i: int|
                    0 <= i < y.len() ==> is_space(#[trigger] y[i]))
        },
{
    lemma_listed_parts(a, b);
    lemma_first_place(part, ',', part.len() as int);
    assert(part.take(part.len() as int) == part);
    law_trimming(part);
    if exists|i: int| 0 <= i < part.len() && !is_space(#[trigger] part[i]) {
        assert(trimmed(part).len() > 0);
        assert(listed(part) == seq![trimmed(part)]);
        assert(listed(part)[0] == trimmed(part));
    }
}

/// The ids that a denial by forbids names are read back from its reason, where each can be told from
/// its neighbours.
pub proof fn law_named_ids_are_read_back(ids: Seq<Seq<char>>)
    requires
        ids.len() > 0,
        forall|i: int|
            0 <= i < ids.len() ==> (#[trigger] ids[i]).len() > 0 && !ids[i].contains(',')
                && !is_space(ids[i][0]) && !is_space(ids[i].last()),
    ensures
        rules_named(Some("cedar forbid: "@ + joined(ids, seq![',', ' ']))) == ids,
{
    reveal_strlit("cedar forbid:");
    reveal_strlit("cedar forbid: ");
    reveal_strlit(", ");
    assert(", "@ == seq![',', ' ']);
    let rest = seq![' '] + joined(ids, ", "@);
    assert("cedar forbid: "@ + joined(ids, seq![',', ' ']) == "cedar forbid:"@ + rest);
    assert forall|tail: Seq<char>| rest != #[trigger] ("cedar forbid:"@ + tail) by {
        assert(("cedar forbid:"@ + tail)[0] == 'c');
        assert(rest[0] == ' ');
    }
    law_rules_of_a_reason(rest, rest);
    assert forall|i: int| 0 <= i < ids.len() implies is_plain_id(#[trigger] ids[i]) by {}
    lemma_listed_ids(ids);
}

/// The audit event of a decision. There is one exactly where the decision is a denial. It carries the
/// request, the tool and the decision point, and is a failure exactly where the reason begins as that
/// of an envelope that did not translate does.
pub proof fn law_audit_event_of_a_denial(
    config: CedarConfig,
    decision_point: Seq<char>,
    verdict: Verdict,
    context: PluginContext,
    nanos: nat,
    alias: Seq<char>,
    occurred_at: Seq<char>,
)
    ensures
        ({
            let r = audited(config, decision_point, verdict, context, nanos, alias, occurred_at);
            let failed = verdict.reason is Some && exists|rest: Seq<char>|
                verdict.reason->0 == #[trigger] ("cedar translate:"@ + rest);
            &&& r is Some <==> verdict.effect == PolicyEffect::Deny
            &&& r matches Some(event) ==> {
                &&& event.event_id == "cedar-"@ + context.request_id@ + "-"@ + decimal(nanos)
                &&& event.occurred_at == occurred_at
                &&& failed ==> event.action == "dev.mcpg.policy.cedar.error"@ && event.outcome
                    == AuditOutcome::Failure
                &&& !failed ==> event.action == "dev.mcpg.policy.cedar.deny"@ && event.outcome
                    == AuditOutcome::Denied
                &&& event.resource == Some("tool://"@ + context.tool_name@ + "/"@ + decision_point)
                &&& event.request_id == Some(context.request_id@)
                &&& event.node_id is None
                &&& event.prev_event_hash is None
            }
        }),
{
    if let Some(reason) = verdict.reason {
        law_prefix(reason, "cedar translate:"@);
    }
    reveal_strlit("error");
    reveal_strlit("deny");
    assert("error"@.len() != "deny"@.len());
}

/// Who the audit event of a denial is put down to. Where the request names a kind of identity, it is
/// that identity in every field, with or without a subject; only where it names none is it the system.
pub proof fn law_actor_of_a_denial(
    config: CedarConfig,
    decision_point: Seq<char>,
    verdict: Verdict,
    context: PluginContext,
    nanos: nat,
    alias: Seq<char>,
    occurred_at: Seq<char>,
    i: int,
)
    requires
        verdict.effect == PolicyEffect::Deny,
    ensures
        ({
            let r = audited(config, decision_point, verdict, context, nanos, alias, occurred_at);
            let actor = r->0.actor;
            let identity = context.identity;
            &&& r is Some
            &&& identity.kind@.len() > 0 ==> {
                &&& actor.kind == identity.kind@
                &&& actor.trust_level == identity.trust_level@
                &&& match identity.subject_id {
                    Some(text) => actor.subject_id == Some(text@),
                    None => actor.subject_id is None,
                }
                &&& match identity.auth_provider {
                    Some(text) => actor.auth_provider == Some(text@),
                    None => actor.auth_provider is None,
                }
                &&& match identity.issuer {
                    Some(text) => actor.issuer == Some(text@),
                    None => actor.issuer is None,
                }
                &&& actor.roles.len() == identity.roles@.len()
                &&& 0 <= i < identity.roles@.len() ==> actor.roles[i] == identity.roles@[i]@
                &&& actor.groups.len() == identity.groups@.len()
                &&& 0 <= i < identity.groups@.len() ==> actor.groups[i] == identity.groups@[i]@
                &&& actor.scopes.len() == identity.scopes@.len()
                &&& 0 <= i < identity.scopes@.len() ==> actor.scopes[i] == identity.scopes@[i]@
                &&& actor.attributes.len() == identity.attributes@.len()
                &&& 0 <= i < identity.attributes@.len() ==> actor.attributes[i] == (
                    identity.attributes@[i].0@,
                    identity.attributes@[i].1@,
                )
            }
            &&& identity.kind@.len() == 0 ==> {
                &&& actor.kind == "system"@
                &&& actor.trust_level == "verified"@
                &&& actor.subject_id == Some("dev.mcpg.policy.cedar"@)
                &&& actor.auth_provider is None
                &&& actor.issuer is None
                &&& actor.roles.len() == 0
                &&& actor.groups.len() == 0
                &&& actor.scopes.len() == 0
                &&& actor.attributes.len() == 0
            }
        }),
{
}

/// What the audit event of a denial tells: who asked for what at which decision point, by which rules
/// and why it was denied, under which policies, and how long that took. The subject is the one of the
/// request, or else the anonymous principal that is configured.
pub proof fn law_details_of_a_denial(
    config: CedarConfig,
    decision_point: Seq<char>,
    verdict: Verdict,
    context: PluginContext,
    nanos: nat,
    alias: Seq<char>,
    occurred_at: Seq<char>,
)
    requires
        verdict.effect == PolicyEffect::Deny,
    ensures
        ({
            let r = audited(config, decision_point, verdict, context, nanos, alias, occurred_at);
            let members = r->0.details->Object_0;
            &&& r is Some
            &&& r->0.details is Object
            &&& members.len() == 9
            &&& members[0] == ("engine"@, JsonValue::Text("cedar"@))
            &&& members[1] == ("decision_point"@, JsonValue::Text(decision_point))
            &&& members[2].0 == "subject"@
            &&& match context.identity.subject_id {
                Some(id) => members[2].1 == JsonValue::Text(id@),
                None => members[2].1 == JsonValue::Text(
                    config.translation.anonymous_principal_id@,
                ),
            }
            &&& members[3] == (
                "resource"@,
                JsonValue::Text("tool://"@ + context.tool_name@ + "/"@ + decision_point),
            )
            &&& members[4].0 == "matched_rules"@
            &&& members[4].1 is Array
            &&& members[4].1->Array_0.len() == rules_named(verdict.reason).len()
            &&& forall|i: int|
                0 <= i < rules_named(verdict.reason).len() ==> #[trigger] members[4].1->Array_0[i]
                    == JsonValue::Text(rules_named(verdict.reason)[i])
            &&& members[5].0 == "reason"@
            &&& match verdict.reason {
                Some(text) => members[5].1 == JsonValue::Text(text),
                None => members[5].1 == JsonValue::Text(Seq::empty()),
            }
            &&& members[6] == ("policy_version"@, JsonValue::Text(verdict.policy_version))
            &&& members[7] == (
                "duration_ms"@,
                JsonValue::Number(decimal(nanos / 1_000_000 % 18_446_744_073_709_551_616)),
            )
            &&& members[8] == ("alias"@, JsonValue::Text(alias))
        }),
{
}

} // verus!
