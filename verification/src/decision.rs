//! What the engine decides on a request.

use vstd::prelude::*;
use vstd::string::*;

use crate::advice::{
    advice, all_advised, all_redacted, annotated, extract_advice, facts_of, law_advice_stacks,
    law_other_annotations_are_ignored, law_redaction_is_verbatim,
    law_redactions_come_from_annotations, redaction,
};
use crate::bundle::{matched_policy, BundleText, CompiledBundle, MatchedPolicy};
use crate::cedar::{
    authorization_outcome, has_permit, law_policy_of_an_id, policy_id_shown, policy_listing,
    policy_named, settles, Authorization, AuthorizationResponse, PolicyFacts, RequestHeld,
};
use crate::config::{CedarConfig, DefaultDenyMode};
use crate::json::{Json, JsonValue};
use crate::protocol::{
    text_of, PluginContext, PolicyDecision, PolicyEffect, RedactionValue, Verdict,
};
use crate::request::{build_request, explain, request_can_be, request_result, request_uids};
use crate::text::{begins_with, is_space, join, joined, law_prefix, starts_with, texts};

verus! {

/// The forbids among policies, in order.
pub open spec fn forbids_in(matched: Seq<PolicyFacts>) -> Seq<PolicyFacts>
    decreases matched.len(),
{
    if matched.len() == 0 {
        Seq::empty()
    } else if matched.last().forbids {
        forbids_in(matched.drop_last()).push(matched.last())
    } else {
        forbids_in(matched.drop_last())
    }
}

/// The ids of policies.
pub open spec fn ids(policies: Seq<PolicyFacts>) -> Seq<Seq<char>> {
    policies.map_values(|p: PolicyFacts| p.id)
}

/// The reason of a denial by these forbids.
pub open spec fn forbid_reason(forbids: Seq<PolicyFacts>) -> Seq<char> {
    "cedar forbid: "@ + joined(ids(forbids), ", "@)
}

/// The decision that Cedar's answer and the policies that settled it come to. A denial in which no
/// forbid matched is a default-deny.
pub open spec fn decided(
    on_default_deny: DefaultDenyMode,
    allows: bool,
    matched: Seq<PolicyFacts>,
    version: Seq<char>,
) -> Verdict {
    let forbids = forbids_in(matched);
    if allows {
        Verdict {
            effect: PolicyEffect::Allow,
            reason: None,
            obligations: all_advised(matched),
            redactions: all_redacted(matched),
            attributes: Seq::empty(),
            policy_version: version,
        }
    } else if forbids.len() > 0 {
        Verdict {
            effect: PolicyEffect::Deny,
            reason: Some(forbid_reason(forbids)),
            obligations: all_advised(forbids),
            redactions: Seq::empty(),
            attributes: Seq::empty(),
            policy_version: version,
        }
    } else {
        match on_default_deny {
            DefaultDenyMode::NotApplicable => Verdict::plain(
                PolicyEffect::NotApplicable,
                None,
                version,
            ),
            DefaultDenyMode::Deny => Verdict::plain(
                PolicyEffect::Deny,
                Some("cedar: default-deny (no policy matched)"@),
                version,
            ),
        }
    }
}

/// What is known of the policies of a list.
pub open spec fn matched_facts(matched: Seq<MatchedPolicy>) -> Seq<PolicyFacts> {
    matched.map_values(|m: MatchedPolicy| m@)
}

/// Refers to each policy of a list.
fn refer_to_all(matched: &Vec<MatchedPolicy>) -> (r: Vec<&MatchedPolicy>)
    ensures
        facts_of(r@) == matched_facts(matched@),
{
    let mut out: Vec<&MatchedPolicy> = Vec::new();
    let mut i: usize = 0;
    while i < matched.len()
        invariant
            i <= matched@.len(),
            out@.len() == i,
            forall|j: int| 0 <= j < i ==> *(#[trigger] out@[j]) == matched@[j],
        decreases matched@.len() - i,
    {
        out.push(&matched[i]);
        i += 1;
    }
    assert(facts_of(out@) == matched_facts(matched@));
    out
}

/// Refers to each forbid of a list.
fn refer_to_forbids(matched: &Vec<MatchedPolicy>) -> (r: Vec<&MatchedPolicy>)
    ensures
        facts_of(r@) == forbids_in(matched_facts(matched@)),
{
    let mut out: Vec<&MatchedPolicy> = Vec::new();
    let mut i: usize = 0;
    let ghost facts = matched_facts(matched@);
    assert(facts.take(0) == Seq::<PolicyFacts>::empty());
    assert(facts_of(out@) == Seq::<PolicyFacts>::empty());
    while i < matched.len()
        invariant
            i <= matched@.len(),
            facts == matched_facts(matched@),
            facts_of(out@) == forbids_in(facts.take(i as int)),
        decreases matched@.len() - i,
    {
        let ghost before = out@;
        proof {
            let t = facts.take(i + 1);
            assert(t.drop_last() == facts.take(i as int));
            assert(t.last() == matched@[i as int]@);
        }
        if matched[i].forbids {
            out.push(&matched[i]);
            assert(facts_of(out@) == facts_of(before).push(matched@[i as int]@));
        }
        i += 1;
    }
    assert(facts.take(facts.len() as int) == facts);
    out
}

/// The ids of policies.
fn ids_of(policies: &Vec<&MatchedPolicy>) -> (r: Vec<String>)
    ensures
        texts(r@) == ids(facts_of(policies@)),
{
    let mut out: Vec<String> = Vec::new();
    let mut i: usize = 0;
    while i < policies.len()
        invariant
            i <= policies@.len(),
            out@.len() == i,
            forall|j: int| 0 <= j < i ==> (#[trigger] out@[j])@ == policies@[j].id@,
        decreases policies@.len() - i,
    {
        out.push(policies[i].id.clone());
        i += 1;
    }
    assert(texts(out@) == ids(facts_of(policies@)));
    out
}

/// The decision that Cedar's answer and the policies that settled it come to.
pub fn decide(
    on_default_deny: DefaultDenyMode,
    allows: bool,
    matched: &Vec<MatchedPolicy>,
    version: &str,
) -> (r: PolicyDecision)
    ensures
        r@ == decided(on_default_deny, allows, matched_facts(matched@), version@),
{
    if allows {
        let (obligations, redactions) = extract_advice(&refer_to_all(matched), true);
        return PolicyDecision::new(
            PolicyEffect::Allow,
            None,
            obligations,
            redactions,
            version,
        );
    }
    let forbids = refer_to_forbids(matched);
    assert(facts_of(forbids@).len() == forbids@.len());
    if forbids.len() == 0 {
        return match on_default_deny {
            DefaultDenyMode::NotApplicable => PolicyDecision::plain(
                PolicyEffect::NotApplicable,
                None,
                version,
            ),
            DefaultDenyMode::Deny => PolicyDecision::deny(
                "cedar: default-deny (no policy matched)".to_owned(),
                version,
            ),
        };
    }
    let (obligations, redactions) = extract_advice(&forbids, false);
    let listed = join(&ids_of(&forbids), ", ");
    let reason = explain("cedar forbid: ", listed.as_str());
    PolicyDecision::new(PolicyEffect::Deny, Some(reason), obligations, redactions, version)
}

/// What is known of the policies that settled a request.
pub open spec fn settling(policies: Seq<PolicyFacts>, answer: Authorization) -> Seq<PolicyFacts> {
    answer.reasons.map_values(|id: Seq<char>| matched_policy(policies, id))
}

/// What is known of the policies that settled a request.
pub fn settling_policies(bundle: &CompiledBundle, response: &AuthorizationResponse) -> (r: Vec<
    MatchedPolicy,
>)
    ensures
        matched_facts(r@) == settling(policy_listing(bundle@.policies), response@),
{
    let mut out: Vec<MatchedPolicy> = Vec::new();
    let mut i: usize = 0;
    while i < response.reasons.len()
        invariant
            i <= response.reasons@.len(),
            out@.len() == i,
            forall|j: int|
                0 <= j < i ==> (#[trigger] out@[j])@ == matched_policy(
                    policy_listing(bundle@.policies),
                    response.reasons@[j]@,
                ),
        decreases response.reasons@.len() - i,
    {
        out.push(bundle.matched(response.reasons[i].as_str()));
        i += 1;
    }
    assert(matched_facts(out@) == settling(policy_listing(bundle@.policies), response@));
    out
}

/// Tells whether Cedar can answer a request so, under a bundle. The policies that settle a request
/// are policies of the bundle: permits where it is allowed, forbids where it is denied. Without a
/// permit in the bundle nothing is allowed.
pub open spec fn answer_can_be(
    bundle: BundleText,
    request: RequestHeld,
    answer: Authorization,
) -> bool {
    &&& authorization_outcome(request, bundle.policies, bundle.entities, answer)
    &&& answer.reasons.no_duplicates()
    &&& answer.allows ==> has_permit(policy_listing(bundle.policies))
    &&& forall|i: int|
        0 <= i < answer.reasons.len() ==> settles(
            policy_listing(bundle.policies),
            #[trigger] answer.reasons[i],
            answer.allows,
        )
}

/// Tells whether the engine can decide so on a request: an envelope that does not translate is
/// denied, and any other goes by Cedar's answer.
pub open spec fn verdict_can_be(
    config: CedarConfig,
    bundle: BundleText,
    version: Seq<char>,
    request: Result<RequestHeld, Seq<char>>,
    verdict: Verdict,
) -> bool {
    match request {
        Err(detail) => verdict == Verdict::plain(
            PolicyEffect::Deny,
            Some("cedar translate: "@ + detail),
            version,
        ),
        Ok(request) => exists|answer: Authorization|
            {
                &&& #[trigger] answer_can_be(bundle, request, answer)
                &&& verdict == decided(
                    config.evaluation.on_default_deny,
                    answer.allows,
                    settling(policy_listing(bundle.policies), answer),
                    version,
                )
            },
    }
}

/// Tells whether the engine can decide so on an envelope.
pub open spec fn evaluation_can_be(
    config: CedarConfig,
    bundle: BundleText,
    version: Seq<char>,
    decision_point: Seq<char>,
    input: JsonValue,
    subject: Option<Seq<char>>,
    verdict: Verdict,
) -> bool {
    exists|request: Result<RequestHeld, Seq<char>>|
        {
            &&& #[trigger] request_can_be(
                config,
                bundle.schema,
                decision_point,
                input,
                subject,
                request,
            )
            &&& verdict_can_be(config, bundle, version, request, verdict)
        }
}

/// Decides on an envelope.
pub fn evaluate_request_inner(
    config: &CedarConfig,
    bundle: &CompiledBundle,
    version_hash: &str,
    decision_point: &str,
    input: &Json,
    context: &PluginContext,
) -> (r: PolicyDecision)
    requires
        input@.distinct(),
    ensures
        evaluation_can_be(
            *config,
            bundle@,
            version_hash@,
            decision_point@,
            input@,
            text_of(context.identity.subject_id),
            r@,
        ),
{
    let translated = build_request(config, bundle.schema(), decision_point, input, context);
    let ghost held = request_result(translated);
    let request = match translated {
        Ok(request) => request,
        Err(detail) => {
            let r = PolicyDecision::deny(
                explain("cedar translate: ", detail.as_str()),
                version_hash,
            );
            assert(verdict_can_be(*config, bundle@, version_hash@, held, r@));
            return r;
        },
    };
    let response = bundle.answer(&request);
    let matched = settling_policies(bundle, &response);
    let r = decide(config.evaluation.on_default_deny, response.allows, &matched, version_hash);
    assert(answer_can_be(bundle@, held->Ok_0, response@));
    assert(verdict_can_be(*config, bundle@, version_hash@, held, r@));
    r
}

/// How a decision is counted: by its effect.
pub open spec fn effect_label(effect: PolicyEffect) -> Seq<char> {
    match effect {
        PolicyEffect::Allow => "allow"@,
        PolicyEffect::Deny => "deny"@,
        PolicyEffect::NotApplicable => "not_applicable"@,
    }
}

/// How a decision is counted: by its effect.
pub fn decision_label(decision: &PolicyDecision) -> (r: &'static str)
    ensures
        r@ == effect_label(decision@.effect),
{
    match decision.effect {
        PolicyEffect::Allow => "allow",
        PolicyEffect::Deny => "deny",
        PolicyEffect::NotApplicable => "not_applicable",
    }
}

/// How the host counts a decision: as an error where the envelope did not translate, or else by
/// whether the request is stopped.
pub open spec fn host_label(verdict: Verdict) -> Seq<char> {
    if verdict.effect != PolicyEffect::Deny {
        "allow"@
    } else if verdict.reason is Some && begins_with(verdict.reason->0, "cedar translate:"@) {
        "error"@
    } else {
        "deny"@
    }
}

/// How the host counts a decision.
pub fn host_outcome_label(decision: &PolicyDecision) -> (r: &'static str)
    ensures
        r@ == host_label(decision@),
{
    match decision.effect {
        PolicyEffect::Allow | PolicyEffect::NotApplicable => "allow",
        PolicyEffect::Deny => match &decision.reason {
            Some(reason) => if starts_with(reason.as_str(), "cedar translate:") {
                "error"
            } else {
                "deny"
            },
            None => "deny",
        },
    }
}

proof fn lemma_forbids_in(matched: Seq<PolicyFacts>)
    ensures
        (forall|i: int| 0 <= i < matched.len() ==> (#[trigger] matched[i]).forbids) ==> forbids_in(
            matched,
        ) == matched,
        (forall|i: int| 0 <= i < matched.len() ==> !(#[trigger] matched[i]).forbids) ==> forbids_in(
            matched,
        ).len() == 0,
    decreases matched.len(),
{
    if matched.len() > 0 {
        let before = matched.drop_last();
        assert(forall|i: int| 0 <= i < before.len() ==> #[trigger] before[i] == matched[i]);
        lemma_forbids_in(before);
        assert(before.push(matched.last()) == matched);
    }
}

/// The decision mapping. A request that Cedar allows is allowed; there is a permit in the bundle, and
/// no forbid is among the policies that settled the request. One that Cedar denies is denied with the ids of the forbids that
/// settled it; where there are none, it is a default-deny, and goes by the configured mode.
pub proof fn law_decision_mapping(
    on_default_deny: DefaultDenyMode,
    bundle: BundleText,
    request: RequestHeld,
    answer: Authorization,
    version: Seq<char>,
)
    requires
        answer_can_be(bundle, request, answer),
    ensures
        ({
            let matched = settling(policy_listing(bundle.policies), answer);
            let verdict = decided(on_default_deny, answer.allows, matched, version);
            &&& verdict.effect == PolicyEffect::Allow <==> answer.allows
            &&& answer.allows ==> has_permit(policy_listing(bundle.policies)) && forbids_in(
                matched,
            ).len() == 0
            &&& !answer.allows && answer.reasons.len() > 0 ==> verdict.effect == PolicyEffect::Deny
                && verdict.reason == Some(forbid_reason(matched))
            &&& !answer.allows && answer.reasons.len() == 0 ==> verdict == match on_default_deny {
                DefaultDenyMode::NotApplicable => Verdict::plain(
                    PolicyEffect::NotApplicable,
                    None,
                    version,
                ),
                DefaultDenyMode::Deny => Verdict::plain(
                    PolicyEffect::Deny,
                    Some("cedar: default-deny (no policy matched)"@),
                    version,
                ),
            }
        }),
{
    let policies = policy_listing(bundle.policies);
    let matched = settling(policies, answer);
    assert forall|i: int| 0 <= i < matched.len() implies (#[trigger] matched[i]).forbids
        == !answer.allows by {
        assert(settles(policies, answer.reasons[i], answer.allows));
    }
    lemma_forbids_in(matched);
}

/// An envelope whose entities cannot be named is denied, and the reason tells why.
pub proof fn law_untranslatable_envelope_is_denied(
    config: CedarConfig,
    bundle: BundleText,
    version: Seq<char>,
    decision_point: Seq<char>,
    input: JsonValue,
    subject: Option<Seq<char>>,
    verdict: Verdict,
)
    requires
        evaluation_can_be(config, bundle, version, decision_point, input, subject, verdict),
        request_uids(config, decision_point, input, subject) is Err,
    ensures
        verdict == Verdict::plain(
            PolicyEffect::Deny,
            Some(
                "cedar translate: "@ + request_uids(config, decision_point, input, subject)->Err_0,
            ),
            version,
        ),
{
}

/// A decision carries redactions only where it allows the request: a denied payload is blocked as
/// a whole.
pub proof fn law_redactions_only_on_allow(
    config: CedarConfig,
    bundle: BundleText,
    version: Seq<char>,
    request: Result<RequestHeld, Seq<char>>,
    verdict: Verdict,
)
    requires
        verdict_can_be(config, bundle, version, request, verdict),
        verdict.redactions.len() > 0,
    ensures
        verdict.effect == PolicyEffect::Allow,
{
}

/// A denial has a reason, and no other decision has one. Every decision carries the version of the
/// bundle, and no attributes.
pub proof fn law_denials_have_reasons(
    config: CedarConfig,
    bundle: BundleText,
    version: Seq<char>,
    request: Result<RequestHeld, Seq<char>>,
    verdict: Verdict,
)
    requires
        verdict_can_be(config, bundle, version, request, verdict),
    ensures
        verdict.reason is Some <==> verdict.effect == PolicyEffect::Deny,
        verdict.policy_version == version,
        verdict.attributes.len() == 0,
{
}

/// The engine gives no opinion only where the configuration asks for that on a default-deny. Such a
/// decision carries nothing.
pub proof fn law_no_opinion_only_if_configured(
    config: CedarConfig,
    bundle: BundleText,
    version: Seq<char>,
    request: Result<RequestHeld, Seq<char>>,
    verdict: Verdict,
)
    requires
        verdict_can_be(config, bundle, version, request, verdict),
        verdict.effect == PolicyEffect::NotApplicable,
    ensures
        config.evaluation.on_default_deny == DefaultDenyMode::NotApplicable,
        verdict == Verdict::plain(PolicyEffect::NotApplicable, None, version),
{
}

/// The host counts an error exactly where the envelope did not translate, and otherwise a denial
/// exactly where the request is stopped.
pub proof fn law_errors_are_translation_failures(
    config: CedarConfig,
    bundle: BundleText,
    version: Seq<char>,
    request: Result<RequestHeld, Seq<char>>,
    verdict: Verdict,
)
    requires
        verdict_can_be(config, bundle, version, request, verdict),
    ensures
        host_label(verdict) == "error"@ <==> request is Err,
        host_label(verdict) == "deny"@ <==> request is Ok && verdict.effect == PolicyEffect::Deny,
        host_label(verdict) == "allow"@ <==> verdict.effect != PolicyEffect::Deny,
{
    reveal_strlit("cedar translate:");
    reveal_strlit("cedar translate: ");
    reveal_strlit("cedar forbid: ");
    reveal_strlit("cedar: default-deny (no policy matched)");
    reveal_strlit("error");
    reveal_strlit("allow");
    reveal_strlit("deny");
    assert("error"@[0] != "allow"@[0]);
    assert("deny"@[0] != "allow"@[0]);
    assert("deny"@[0] != "error"@[0]);
    let prefix = "cedar translate:"@;
    match request {
        Err(detail) => {
            let reason = "cedar translate: "@ + detail;
            assert(reason.take(prefix.len() as int) == prefix);
        },
        Ok(request) => {
            if verdict.reason is Some {
                let reason = verdict.reason->0;
                if begins_with(reason, prefix) {
                    assert(reason.take(prefix.len() as int)[6] == reason[6]);
                    assert(reason.take(prefix.len() as int)[5] == reason[5]);
                }
            }
        },
    }
}

proof fn lemma_settling_annotations(policies: Seq<PolicyFacts>, answer: Authorization, key: Seq<char>)
    requires
        annotated(settling(policies, answer), key),
    ensures
        annotated(policies, key),
{
    let matched = settling(policies, answer);
    let (i, j) = choose|i: int, j: int|
        0 <= i < matched.len() && 0 <= j < matched[i].annotations.len()
            && #[trigger] matched[i].annotations[j].0 == key;
    let k = crate::bundle::lemma_named_policy_is_listed(policies, answer.reasons[i]);
    assert(policies[k].annotations[j].0 == key);
}

proof fn lemma_forbids_annotations(matched: Seq<PolicyFacts>, key: Seq<char>)
    requires
        annotated(forbids_in(matched), key),
    ensures
        annotated(matched, key),
    decreases matched.len(),
{
    if matched.len() > 0 {
        let forbids = forbids_in(matched);
        let before = matched.drop_last();
        let (i, j) = choose|i: int, j: int|
            0 <= i < forbids.len() && 0 <= j < forbids[i].annotations.len()
                && #[trigger] forbids[i].annotations[j].0 == key;
        if matched.last().forbids && i == forbids.len() - 1 {
            assert(matched[matched.len() - 1].annotations[j].0 == key);
        } else {
            assert(forbids_in(before)[i].annotations[j].0 == key);
            lemma_forbids_annotations(before, key);
            let (k, l) = choose|k: int, l: int|
                0 <= k < before.len() && 0 <= l < before[k].annotations.len()
                    && #[trigger] before[k].annotations[l].0 == key;
            assert(matched[k].annotations[l].0 == key);
        }
    }
}

/// Where no policy of the bundle has an `@advice` annotation no decision carries obligations, and
/// where none has a `@redact` annotation no decision carries redactions.
pub proof fn law_unannotated_policies_emit_nothing(
    config: CedarConfig,
    bundle: BundleText,
    version: Seq<char>,
    request: Result<RequestHeld, Seq<char>>,
    verdict: Verdict,
)
    requires
        verdict_can_be(config, bundle, version, request, verdict),
    ensures
        !annotated(policy_listing(bundle.policies), "advice"@) ==> verdict.obligations.len() == 0,
        !annotated(policy_listing(bundle.policies), "redact"@) ==> verdict.redactions.len() == 0,
{
    if let Ok(request) = request {
        let policies = policy_listing(bundle.policies);
        let answer = choose|answer: Authorization|
            {
                &&& #[trigger] answer_can_be(bundle, request, answer)
                &&& verdict == decided(
                    config.evaluation.on_default_deny,
                    answer.allows,
                    settling(policies, answer),
                    version,
                )
            };
        let matched = settling(policies, answer);
        assert forall|key: Seq<char>| !annotated(policies, key) implies !#[trigger] annotated(
            matched,
            key,
        ) && !annotated(forbids_in(matched), key) by {
            if annotated(forbids_in(matched), key) {
                lemma_forbids_annotations(matched, key);
            }
            if annotated(matched, key) {
                lemma_settling_annotations(policies, answer, key);
            }
        }
        assert(!annotated(policies, "advice"@) ==> !annotated(matched, "advice"@));
        assert(!annotated(policies, "redact"@) ==> !annotated(matched, "redact"@));
        law_other_annotations_are_ignored(matched);
        law_other_annotations_are_ignored(forbids_in(matched));
    }
}

/// The advice of every policy that settled a request is an obligation of the decision, whether the
/// request is allowed or denied, and where it is allowed each redaction is one too.
pub proof fn law_settling_policies_advise(
    on_default_deny: DefaultDenyMode,
    bundle: BundleText,
    request: RequestHeld,
    answer: Authorization,
    version: Seq<char>,
    i: int,
    j: int,
)
    requires
        answer_can_be(bundle, request, answer),
        0 <= i < answer.reasons.len(),
        0 <= j < policy_named(
            policy_listing(bundle.policies),
            answer.reasons[i],
        )->0.annotations.len(),
    ensures
        ({
            let policies = policy_listing(bundle.policies);
            let (key, value) = policy_named(policies, answer.reasons[i])->0.annotations[j];
            let verdict = decided(
                on_default_deny,
                answer.allows,
                settling(policies, answer),
                version,
            );
            &&& key == "advice"@ && advice(value) is Some ==> verdict.obligations.contains(
                advice(value)->0,
            )
            &&& key == "redact"@ && redaction(value) is Some && answer.allows
                ==> verdict.redactions.contains(redaction(value)->0)
        }),
{
    let policies = policy_listing(bundle.policies);
    let matched = settling(policies, answer);
    assert forall|k: int| 0 <= k < matched.len() implies (#[trigger] matched[k]).forbids
        == !answer.allows by {
        assert(settles(policies, answer.reasons[k], answer.allows));
    }
    assert(settles(policies, answer.reasons[i], answer.allows));
    assert(matched[i].annotations == policy_named(policies, answer.reasons[i])->0.annotations);
    lemma_forbids_in(matched);
    law_advice_stacks(matched, i, j);
}

proof fn lemma_forbids_are_filtered(matched: Seq<PolicyFacts>)
    ensures
        forbids_in(matched) == matched.filter(|p: PolicyFacts| p.forbids),
    decreases matched.len(),
{
    reveal(Seq::filter);
    if matched.len() > 0 {
        lemma_forbids_are_filtered(matched.drop_last());
    }
}

/// The decision on an answer, from the policies that settled it. An allowed request gets the advice and
/// the redactions of them all. A denied one gets the ids and the advice of the forbids among them, in
/// order, and no redactions; where there are none, the configured mode decides.
pub proof fn law_verdict_on_an_answer(
    on_default_deny: DefaultDenyMode,
    allows: bool,
    matched: Seq<PolicyFacts>,
    version: Seq<char>,
)
    ensures
        ({
            let v = decided(on_default_deny, allows, matched, version);
            let forbids = matched.filter(|p: PolicyFacts| p.forbids);
            &&& v.policy_version == version
            &&& v.attributes.len() == 0
            &&& allows ==> {
                &&& v.effect == PolicyEffect::Allow
                &&& v.reason is None
                &&& v.obligations == all_advised(matched)
                &&& v.redactions == all_redacted(matched)
            }
            &&& !allows ==> v.redactions.len() == 0
            &&& !allows && forbids.len() > 0 ==> {
                &&& v.effect == PolicyEffect::Deny
                &&& v.reason == Some(
                    "cedar forbid: "@ + joined(
                        forbids.map_values(|p: PolicyFacts| p.id),
                        seq![',', ' '],
                    ),
                )
                &&& v.obligations == all_advised(forbids)
            }
            &&& !allows && forbids.len() == 0 ==> {
                &&& v.obligations.len() == 0
                &&& on_default_deny == DefaultDenyMode::NotApplicable ==> v.effect
                    == PolicyEffect::NotApplicable && v.reason is None
                &&& on_default_deny == DefaultDenyMode::Deny ==> v.effect == PolicyEffect::Deny
                    && v.reason == Some("cedar: default-deny (no policy matched)"@)
            }
        }),
{
    lemma_forbids_are_filtered(matched);
    let forbids = matched.filter(|p: PolicyFacts| p.forbids);
    reveal_strlit(", ");
    assert(", "@ == seq![',', ' ']);
    assert(ids(forbids) == forbids.map_values(|p: PolicyFacts| p.id));
}

/// Tells whether this is what is known of the policy of an id: the effect and the annotations of the one
/// that is listed under it, with the id as it is shown.
pub open spec fn known_of(policies: Seq<PolicyFacts>, id: Seq<char>, facts: PolicyFacts) -> bool {
    &&& facts.id == policy_id_shown(id)
    &&& exists|k: int|
        {
            &&& 0 <= k < policies.len()
            &&& (#[trigger] policies[k]).id == id
            &&& policies[k].forbids == facts.forbids
            &&& policies[k].annotations == facts.annotations
        }
}

/// Tells whether this is what is known of the policies that an answer names, in its order.
pub open spec fn named_policies(
    policies: Seq<PolicyFacts>,
    answer: Authorization,
    matched: Seq<PolicyFacts>,
) -> bool {
    &&& matched.len() == answer.reasons.len()
    &&& forall|i: int|
        0 <= i < matched.len() ==> known_of(policies, answer.reasons[i], #[trigger] matched[i])
}

proof fn lemma_settling_policies_are_named(
    bundle: BundleText,
    request: RequestHeld,
    answer: Authorization,
)
    requires
        answer_can_be(bundle, request, answer),
    ensures
        named_policies(
            policy_listing(bundle.policies),
            answer,
            settling(policy_listing(bundle.policies), answer),
        ),
{
    let policies = policy_listing(bundle.policies);
    let matched = settling(policies, answer);
    assert forall|i: int| 0 <= i < matched.len() implies known_of(
        policies,
        answer.reasons[i],
        #[trigger] matched[i],
    ) by {
        assert(settles(policies, answer.reasons[i], answer.allows));
        let k = crate::bundle::lemma_named_policy_is_listed(policies, answer.reasons[i]);
        assert(policies[k].id == answer.reasons[i]);
    }
}

/// What the engine decides on an envelope, from the envelope to the decision. Either the envelope does
/// not translate, and is denied with the reason why; or Cedar is asked about the request of the
/// envelope under the policies and the entities of the bundle, and the decision goes by its answer.
pub proof fn law_decision_on_an_envelope(
    config: CedarConfig,
    bundle: BundleText,
    version: Seq<char>,
    decision_point: Seq<char>,
    input: JsonValue,
    subject: Option<Seq<char>>,
    verdict: Verdict,
)
    requires
        evaluation_can_be(config, bundle, version, decision_point, input, subject, verdict),
    ensures
        verdict.policy_version == version,
        verdict.attributes.len() == 0,
        ({
            ||| exists|message: Seq<char>|
                {
                    &&& #[trigger] request_can_be(
                        config,
                        bundle.schema,
                        decision_point,
                        input,
                        subject,
                        Err::<RequestHeld, Seq<char>>(message),
                    )
                    &&& verdict.effect == PolicyEffect::Deny
                    &&& verdict.reason == Some("cedar translate: "@ + message)
                    &&& verdict.obligations.len() == 0
                    &&& verdict.redactions.len() == 0
                }
            ||| exists|held: RequestHeld, answer: Authorization, matched: Seq<PolicyFacts>|
                {
                    &&& request_can_be(
                        config,
                        bundle.schema,
                        decision_point,
                        input,
                        subject,
                        Ok::<RequestHeld, Seq<char>>(held),
                    )
                    &&& #[trigger] authorization_outcome(
                        held,
                        bundle.policies,
                        bundle.entities,
                        answer,
                    )
                    &&& #[trigger] named_policies(policy_listing(bundle.policies), answer, matched)
                    &&& forall|i: int|
                        0 <= i < matched.len() ==> (#[trigger] matched[i]).forbids
                            == !answer.allows
                    &&& answer.allows ==> {
                        &&& verdict.effect == PolicyEffect::Allow
                        &&& verdict.reason is None
                        &&& verdict.obligations == all_advised(matched)
                        &&& verdict.redactions == all_redacted(matched)
                    }
                    &&& !answer.allows ==> verdict.redactions.len() == 0
                    &&& !answer.allows && matched.len() > 0 ==> {
                        &&& verdict.effect == PolicyEffect::Deny
                        &&& verdict.reason == Some(
                            "cedar forbid: "@ + joined(
                                matched.map_values(|p: PolicyFacts| p.id),
                                seq![',', ' '],
                            ),
                        )
                        &&& verdict.obligations == all_advised(matched)
                    }
                    &&& !answer.allows && matched.len() == 0 ==> {
                        &&& verdict.obligations.len() == 0
                        &&& match config.evaluation.on_default_deny {
                            DefaultDenyMode::NotApplicable => verdict.effect
                                == PolicyEffect::NotApplicable && verdict.reason is None,
                            DefaultDenyMode::Deny => verdict.effect == PolicyEffect::Deny
                                && verdict.reason == Some(
                                "cedar: default-deny (no policy matched)"@,
                            ),
                        }
                    }
                }
        }),
{
    let request = choose|request: Result<RequestHeld, Seq<char>>|
        {
            &&& #[trigger] request_can_be(
                config,
                bundle.schema,
                decision_point,
                input,
                subject,
                request,
            )
            &&& verdict_can_be(config, bundle, version, request, verdict)
        };
    if let Ok(held) = request {
        let policies = policy_listing(bundle.policies);
        let mode = config.evaluation.on_default_deny;
        let answer = choose|answer: Authorization|
            {
                &&& #[trigger] answer_can_be(bundle, held, answer)
                &&& verdict == decided(mode, answer.allows, settling(policies, answer), version)
            };
        let matched = settling(policies, answer);
        assert forall|i: int| 0 <= i < matched.len() implies (#[trigger] matched[i]).forbids
            == !answer.allows by {
            assert(settles(policies, answer.reasons[i], answer.allows));
        }
        lemma_settling_policies_are_named(bundle, held, answer);
        lemma_forbids_in(matched);
        lemma_forbids_are_filtered(matched);
        law_verdict_on_an_answer(mode, answer.allows, matched, version);
        assert(authorization_outcome(held, bundle.policies, bundle.entities, answer));
    } else {
        assert(request == Err::<RequestHeld, Seq<char>>(request->Err_0));
    }
}

/// At a decision point that no entry names, and for which there is no catch-all, every envelope is
/// denied.
pub proof fn law_uncovered_decision_points_are_denied(
    config: CedarConfig,
    bundle: BundleText,
    version: Seq<char>,
    decision_point: Seq<char>,
    input: JsonValue,
    subject: Option<Seq<char>>,
    verdict: Verdict,
)
    requires
        evaluation_can_be(config, bundle, version, decision_point, input, subject, verdict),
        forall|j: int|
            0 <= j < config.translation.resource_types@.len() ==> (
            #[trigger] config.translation.resource_types@[j]).decision_point@ != decision_point
                && config.translation.resource_types@[j].decision_point@ != "*"@,
    ensures
        config.entry_for(decision_point) is None,
        verdict.effect == PolicyEffect::Deny,
        verdict.reason matches Some(reason) && begins_with(reason, "cedar translate: "@),
{
    let request = choose|request: Result<RequestHeld, Seq<char>>|
        {
            &&& #[trigger] request_can_be(
                config,
                bundle.schema,
                decision_point,
                input,
                subject,
                request,
            )
            &&& verdict_can_be(config, bundle, version, request, verdict)
        };
    crate::config::law_entry_for_a_decision_point(config, decision_point);
    if let Ok(held) = request {
        crate::request::law_parts_of_a_request(
            config,
            bundle.schema,
            decision_point,
            input,
            subject,
            held,
        );
    } else {
        law_prefix(verdict.reason->0, "cedar translate: "@);
        assert(verdict.reason->0 == "cedar translate: "@ + request->Err_0);
    }
}

/// The policy of an id is the first that is listed under it.
proof fn lemma_first_of_an_id(policies: Seq<PolicyFacts>, id: Seq<char>, k: int)
    requires
        0 <= k < policies.len(),
        policies[k].id == id,
        forall|m: int| 0 <= m < k ==> (#[trigger] policies[m]).id != id,
    ensures
        policy_named(policies, id) == Some(policies[k]),
{
    law_policy_of_an_id(policies, id);
    let policy = policy_named(policies, id)->0;
    let i = choose|i: int|
        0 <= i < policies.len() && #[trigger] policies[i] == policy && policy.id == id && forall|
            j: int,
        |
            0 <= j < i ==> (#[trigger] policies[j]).id != id;
    assert(i == k);
}

/// Where a request is allowed, the value of each `@redact` annotation of a policy that settled it is,
/// unless it is blank, the pointer of one of the redactions of the decision, as it is written.
pub proof fn law_redact_annotations_are_kept(
    on_default_deny: DefaultDenyMode,
    bundle: BundleText,
    request: RequestHeld,
    answer: Authorization,
    version: Seq<char>,
    i: int,
    k: int,
    j: int,
    value: Seq<char>,
)
    requires
        answer_can_be(bundle, request, answer),
        answer.allows,
        0 <= i < answer.reasons.len(),
        0 <= k < policy_listing(bundle.policies).len(),
        policy_listing(bundle.policies)[k].id == answer.reasons[i],
        forall|m: int|
            0 <= m < k ==> (#[trigger] policy_listing(bundle.policies)[m]).id != answer.reasons[i],
        0 <= j < policy_listing(bundle.policies)[k].annotations.len(),
        policy_listing(bundle.policies)[k].annotations[j] == ("redact"@, value),
        exists|n: int| 0 <= n < value.len() && !is_space(#[trigger] value[n]),
    ensures
        decided(
            on_default_deny,
            answer.allows,
            settling(policy_listing(bundle.policies), answer),
            version,
        ).redactions.contains(
            RedactionValue { json_pointer: value, replacement: JsonValue::Text("***"@) },
        ),
{
    lemma_first_of_an_id(policy_listing(bundle.policies), answer.reasons[i], k);
    law_settling_policies_advise(on_default_deny, bundle, request, answer, version, i, j);
    law_redaction_is_verbatim(value);
    reveal_strlit("***");
    assert("***"@ == seq!['*', '*', '*']);
}

/// Every redaction of a decision carries, as it is written, the value of a `@redact` annotation of a
/// policy that settled the request.
pub proof fn law_redactions_are_annotations(
    on_default_deny: DefaultDenyMode,
    bundle: BundleText,
    request: RequestHeld,
    answer: Authorization,
    version: Seq<char>,
    at: int,
) -> (r: (int, int, int))
    requires
        answer_can_be(bundle, request, answer),
        0 <= at < decided(
            on_default_deny,
            answer.allows,
            settling(policy_listing(bundle.policies), answer),
            version,
        ).redactions.len(),
    ensures
        ({
            let policies = policy_listing(bundle.policies);
            let redaction = decided(
                on_default_deny,
                answer.allows,
                settling(policies, answer),
                version,
            ).redactions[at];
            let (i, k, j) = r;
            &&& answer.allows
            &&& redaction.replacement == JsonValue::Text("***"@)
            &&& 0 <= i < answer.reasons.len()
            &&& 0 <= k < policies.len()
            &&& policies[k].id == answer.reasons[i]
            &&& 0 <= j < policies[k].annotations.len()
            &&& policies[k].annotations[j] == ("redact"@, redaction.json_pointer)
        }),
{
    let policies = policy_listing(bundle.policies);
    let matched = settling(policies, answer);
    let (i, j) = law_redactions_come_from_annotations(matched, at);
    assert(settles(policies, answer.reasons[i], answer.allows));
    let k = crate::bundle::lemma_named_policy_is_listed(policies, answer.reasons[i]);
    assert(matched[i].annotations == policies[k].annotations);
    (i, k, j)
}

/// How decisions are counted. By effect each has a name of its own; the host counts as allowed whatever
/// is not stopped, and as an error what is stopped because it did not translate.
pub proof fn law_labels(verdict: Verdict)
    ensures
        effect_label(PolicyEffect::Allow) == "allow"@,
        effect_label(PolicyEffect::Deny) == "deny"@,
        effect_label(PolicyEffect::NotApplicable) == "not_applicable"@,
        verdict.effect != PolicyEffect::Deny ==> host_label(verdict) == "allow"@,
        verdict.effect == PolicyEffect::Deny && verdict.reason is None ==> host_label(verdict)
            == "deny"@,
        verdict.effect == PolicyEffect::Deny ==> (verdict.reason matches Some(reason) ==> host_label(
            verdict,
        ) == (if exists|rest: Seq<char>| reason == #[trigger] ("cedar translate:"@ + rest) {
            "error"@
        } else {
            "deny"@
        })),
{
    if let Some(reason) = verdict.reason {
        law_prefix(reason, "cedar translate:"@);
    }
}

/// What is known of matched policies is what stands in their fields, in order.
pub proof fn law_matched_facts_are_the_fields(matched: Seq<MatchedPolicy>, i: int, j: int)
    ensures
        matched_facts(matched).len() == matched.len(),
        0 <= i < matched.len() ==> {
            &&& matched_facts(matched)[i].id == matched[i].id@
            &&& matched_facts(matched)[i].forbids == matched[i].forbids
            &&& matched_facts(matched)[i].annotations.len() == matched[i].annotations@.len()
            &&& 0 <= j < matched[i].annotations@.len() ==> matched_facts(matched)[i].annotations[j]
                == (matched[i].annotations@[j].0@, matched[i].annotations@[j].1@)
        },
{
}

} // verus!
