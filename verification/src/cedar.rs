//! The Cedar engine: its values as this crate sees them, and the calls into it.
//!
//! Schemas, entity stores, policy sets, contexts and requests of Cedar are opaque here. Each is
//! known by what it was made from. What Cedar says of them is a function of that, or, where it also
//! rests on the order of a hash table or on how much stack is left, one of the outcomes that Cedar
//! can have there.

use vstd::prelude::*;

use crate::json::{json_held, JsonValue};
use crate::text::texts;

verus! {

/// A schema, by its text in one of the two syntaxes.
pub enum SchemaText {
    Cedar(Seq<char>),
    Json(Seq<char>),
}

/// An entity store: empty, or read from a JSON text under a schema.
pub enum EntitiesText {
    Empty,
    Json { text: Seq<char>, schema: Option<SchemaText> },
}

/// A context: empty, or made from a JSON value, where there is a schema under the type that it
/// declares for an action.
pub enum ContextHeld {
    Empty,
    Json { value: JsonValue, typing: Option<(SchemaText, Seq<char>)> },
}

/// A request: the texts of its three entity uids, and its context.
pub struct RequestHeld {
    pub principal: Seq<char>,
    pub action: Seq<char>,
    pub resource: Seq<char>,
    pub context: ContextHeld,
}

/// What the engine reads of a policy: its id, whether it forbids, and its annotations by key and
/// value, in the order of their keys.
pub struct PolicyFacts {
    pub id: Seq<char>,
    pub forbids: bool,
    pub annotations: Seq<(Seq<char>, Seq<char>)>,
}

/// What Cedar answers to a request: whether it is allowed, and the ids of the policies that
/// settled it.
pub struct Authorization {
    pub allows: bool,
    pub reasons: Seq<Seq<char>>,
}

/// What the engine reads of a policy.
#[derive(Debug)]
pub struct PolicyRecord {
    pub id: String,
    pub forbids: bool,
    pub annotations: Vec<(String, String)>,
}

/// The keys and values of annotations.
pub open spec fn pairs(annotations: Seq<(String, String)>) -> Seq<(Seq<char>, Seq<char>)> {
    annotations.map_values(|a: (String, String)| (a.0@, a.1@))
}

impl View for PolicyRecord {
    type V = PolicyFacts;

    open spec fn view(&self) -> PolicyFacts {
        PolicyFacts {
            id: self.id@,
            forbids: self.forbids,
            annotations: pairs(self.annotations@),
        }
    }
}

/// What Cedar answers to a request. The order of the policy ids has no meaning.
#[derive(Debug)]
pub struct AuthorizationResponse {
    pub allows: bool,
    pub reasons: Vec<String>,
}

impl View for AuthorizationResponse {
    type V = Authorization;

    open spec fn view(&self) -> Authorization {
        Authorization { allows: self.allows, reasons: texts(self.reasons@) }
    }
}

/// The policy of this id.
pub open spec fn policy_named(policies: Seq<PolicyFacts>, id: Seq<char>) -> Option<PolicyFacts>
    decreases policies.len(),
{
    if policies.len() == 0 {
        None
    } else if policies[0].id == id {
        Some(policies[0])
    } else {
        policy_named(policies.drop_first(), id)
    }
}

/// Tells whether no two policies have one id.
pub open spec fn ids_distinct(policies: Seq<PolicyFacts>) -> bool {
    forall|i: int, j: int|
        0 <= i < j < policies.len() ==> (#[trigger] policies[i]).id != (#[trigger] policies[j]).id
}

/// `cedar_policy::EntityUid`, the uid of an entity.
#[verifier::external_type_specification]
#[verifier::external_body]
pub struct ExEntityUid(cedar_policy::EntityUid);

/// `cedar_policy::Schema`.
#[verifier::external_type_specification]
#[verifier::external_body]
pub struct ExSchema(cedar_policy::Schema);

/// `cedar_policy::Entities`, an entity store.
#[verifier::external_type_specification]
#[verifier::external_body]
pub struct ExEntities(cedar_policy::Entities);

/// `cedar_policy::PolicySet`.
#[verifier::external_type_specification]
#[verifier::external_body]
pub struct ExPolicySet(cedar_policy::PolicySet);

/// `cedar_policy::Context`, the context of a request.
#[verifier::external_type_specification]
#[verifier::external_body]
pub struct ExContext(cedar_policy::Context);

/// `cedar_policy::Request`, an authorization request.
#[verifier::external_type_specification]
#[verifier::external_body]
pub struct ExRequest(cedar_policy::Request);

/// The text of a uid: its type, `::`, and its id in double quotes.
pub uninterp spec fn uid_text(uid: cedar_policy::EntityUid) -> Seq<char>;

/// The text that a schema was read from.
pub uninterp spec fn schema_text(schema: cedar_policy::Schema) -> SchemaText;

/// What an entity store was read from.
pub uninterp spec fn entities_text(entities: cedar_policy::Entities) -> EntitiesText;

/// The text that a policy set was parsed from.
pub uninterp spec fn policies_text(policies: cedar_policy::PolicySet) -> Seq<char>;

/// What a context was made from.
pub uninterp spec fn context_held(context: cedar_policy::Context) -> ContextHeld;

/// What a request was made from.
pub uninterp spec fn request_held(request: cedar_policy::Request) -> RequestHeld;

/// The text of the refusal, where there is one.
pub open spec fn fault_of<T>(r: Result<T, String>) -> Option<Seq<char>> {
    match r {
        Ok(_) => None,
        Err(fault) => Some(fault@),
    }
}

/// The text of the schema, where there is one.
pub open spec fn schema_given(schema: Option<&cedar_policy::Schema>) -> Option<SchemaText> {
    match schema {
        Some(s) => Some(schema_text(*s)),
        None => None,
    }
}

/// What Cedar says against a uid text; nothing where it is one.
pub uninterp spec fn uid_fault(text: Seq<char>) -> Option<Seq<char>>;

/// `EntityUid::from_str` reads a uid. It accepts a text only if `Display` of the uid gives that text
/// back.
#[verifier::external_body]
pub(crate) fn parse_uid(text: &str) -> (r: Result<cedar_policy::EntityUid, String>)
    ensures
        match r {
            Ok(uid) => uid_fault(text@) is None && uid_text(uid) == text@,
            Err(fault) => uid_fault(text@) == Some(fault@),
        },
{
    text.parse::<cedar_policy::EntityUid>().map_err(|e| e.to_string())
}

/// `Context::empty` is the context without attributes.
#[verifier::external_body]
pub(crate) fn empty_context() -> (r: cedar_policy::Context)
    ensures
        context_held(r) is Empty,
{
    cedar_policy::Context::empty()
}

/// Tells whether Cedar can make a context from a JSON value (no fault), or can refuse it with this
/// fault.
pub uninterp spec fn context_outcome(
    value: JsonValue,
    typing: Option<(SchemaText, Seq<char>)>,
    fault: Option<Seq<char>>,
) -> bool;

/// The type that a schema, where there is one, declares for the context of an action.
pub open spec fn typing(schema: Option<SchemaText>, action: Seq<char>) -> Option<
    (SchemaText, Seq<char>),
> {
    match schema {
        Some(text) => Some((text, action)),
        None => None,
    }
}

/// `Context::from_json_value` makes a context from a JSON value, where there is a schema under the
/// type that it declares for the action. A deeply nested value can be refused for want of stack.
#[verifier::external_body]
pub(crate) fn context_from_json(
    value: serde_json::Value,
    schema: Option<&cedar_policy::Schema>,
    action: &cedar_policy::EntityUid,
) -> (r: Result<cedar_policy::Context, String>)
    ensures
        context_outcome(
            json_held(value),
            typing(schema_given(schema), uid_text(*action)),
            fault_of(r),
        ),
        r matches Ok(context) ==> context_held(context) == (ContextHeld::Json {
            value: json_held(value),
            typing: typing(schema_given(schema), uid_text(*action)),
        }),
{
    cedar_policy::Context::from_json_value(value, schema.map(|s| (s, action)))
        .map_err(|e| e.to_string())
}

/// What Cedar says against a request under a schema; nothing where the request is in order.
pub uninterp spec fn request_fault(request: RequestHeld, schema: Option<SchemaText>) -> Option<
    Seq<char>,
>;

/// `Request::new` makes a request of its four parts, and where there is a schema checks it.
#[verifier::external_body]
pub(crate) fn new_request(
    principal: cedar_policy::EntityUid,
    action: cedar_policy::EntityUid,
    resource: cedar_policy::EntityUid,
    context: cedar_policy::Context,
    schema: Option<&cedar_policy::Schema>,
) -> (r: Result<cedar_policy::Request, String>)
    ensures
        ({
            let held = RequestHeld {
                principal: uid_text(principal),
                action: uid_text(action),
                resource: uid_text(resource),
                context: context_held(context),
            };
            match r {
                Ok(request) => {
                    &&& request_fault(held, schema_given(schema)) is None
                    &&& request_held(request) == held
                },
                Err(fault) => request_fault(held, schema_given(schema)) == Some(fault@),
            }
        }),
{
    cedar_policy::Request::new(principal, action, resource, context, schema)
        .map_err(|e| e.to_string())
}

/// What Cedar says against a text of policies; nothing where it is one.
pub uninterp spec fn policies_fault(text: Seq<char>) -> Option<Seq<char>>;

/// `PolicySet::from_str` parses a text of policies.
#[verifier::external_body]
pub(crate) fn parse_policies(text: &str) -> (r: Result<cedar_policy::PolicySet, String>)
    ensures
        match r {
            Ok(policies) => policies_fault(text@) is None && policies_text(policies) == text@,
            Err(fault) => policies_fault(text@) == Some(fault@),
        },
{
    text.parse::<cedar_policy::PolicySet>().map_err(|e| e.to_string())
}

/// The policies of a text, in its order.
pub uninterp spec fn policy_listing(text: Seq<char>) -> Seq<PolicyFacts>;

/// `PolicySet::policies` lists the policies of a set, each under an id of its own; `Policy::id`,
/// `effect` and `annotations` tell what the engine reads of each.
#[verifier::external_body]
pub(crate) fn policy_records(policies: &cedar_policy::PolicySet) -> (r: Vec<PolicyRecord>)
    ensures
        r@.map_values(|p: PolicyRecord| p@) == policy_listing(policies_text(*policies)),
        ids_distinct(r@.map_values(|p: PolicyRecord| p@)),
{
    policies.policies().map(
        |p| PolicyRecord {
            id: AsRef::<str>::as_ref(p.id()).to_owned(),
            forbids: matches!(p.effect(), cedar_policy::Effect::Forbid),
            annotations: p.annotations().map(|(k, v)| (k.to_owned(), v.to_owned())).collect(),
        },
    ).collect()
}

/// `PolicySet::policy` finds the policy of an id, and `Policy::annotations` lists its annotations.
#[verifier::external_body]
pub(crate) fn policy_annotations(policies: &cedar_policy::PolicySet, id: &str) -> (r: Option<
    Vec<(String, String)>,
>)
    ensures
        match r {
            Some(annotations) => {
                &&& policy_named(policy_listing(policies_text(*policies)), id@) is Some
                &&& pairs(annotations@) == policy_named(
                    policy_listing(policies_text(*policies)),
                    id@,
                )->0.annotations
            },
            None => policy_named(policy_listing(policies_text(*policies)), id@) is None,
        },
{
    policies.policy(&cedar_policy::PolicyId::new(id)).map(
        |p| p.annotations().map(|(k, v)| (k.to_owned(), v.to_owned())).collect(),
    )
}

/// A policy id as it is shown, with special characters escaped.
pub uninterp spec fn policy_id_shown(id: Seq<char>) -> Seq<char>;

/// Tells whether a text holds only letters and digits of ASCII, underscores and hyphens.
pub open spec fn is_word(text: Seq<char>) -> bool {
    forall|i: int|
        0 <= i < text.len() ==> {
            let c = #[trigger] text[i];
            'a' <= c <= 'z' || 'A' <= c <= 'Z' || '0' <= c <= '9' || c == '_' || c == '-'
        }
}

/// `Display` of `cedar_policy::PolicyId` shows a policy id. An id that is a word is shown as it is.
#[verifier::external_body]
pub(crate) fn show_policy_id(id: &str) -> (r: String)
    ensures
        r@ == policy_id_shown(id@),
        is_word(id@) ==> r@ == id@,
{
    cedar_policy::PolicyId::new(id).to_string()
}

/// Tells whether a text is a schema in Cedar syntax.
pub uninterp spec fn is_cedar_schema(text: Seq<char>) -> bool;

/// `Schema::from_str` reads a schema in Cedar syntax, and gives nothing where the text is none.
#[verifier::external_body]
pub(crate) fn read_cedar_schema(text: &str) -> (r: Option<cedar_policy::Schema>)
    ensures
        r is Some == is_cedar_schema(text@),
        r matches Some(schema) ==> schema_text(schema) == SchemaText::Cedar(text@),
{
    text.parse::<cedar_policy::Schema>().ok()
}

/// Tells whether Cedar can read a text as a schema in JSON syntax (no fault), or can refuse it with
/// this fault.
pub uninterp spec fn json_schema_outcome(text: Seq<char>, fault: Option<Seq<char>>) -> bool;

/// `Schema::from_json_str` reads a schema in JSON syntax. The wording of a refusal can rest on the
/// order of a hash table.
#[verifier::external_body]
pub(crate) fn read_json_schema(text: &str) -> (r: Result<cedar_policy::Schema, String>)
    ensures
        json_schema_outcome(text@, fault_of(r)),
        r matches Ok(schema) ==> schema_text(schema) == SchemaText::Json(text@),
{
    cedar_policy::Schema::from_json_str(text).map_err(|e| e.to_string())
}

/// Tells whether Cedar can read a text as an entity store under a schema (no fault), or can refuse
/// it with this fault.
pub uninterp spec fn entities_outcome(
    text: Seq<char>,
    schema: Option<SchemaText>,
    fault: Option<Seq<char>>,
) -> bool;

/// `Entities::from_json_str` reads an entity store, where there is a schema under that schema. The
/// wording of a refusal can rest on the order of a hash table, and a deeply nested attribute can be
/// refused for want of stack.
#[verifier::external_body]
pub(crate) fn read_entities(text: &str, schema: Option<&cedar_policy::Schema>) -> (r: Result<
    cedar_policy::Entities,
    String,
>)
    ensures
        entities_outcome(text@, schema_given(schema), fault_of(r)),
        r matches Ok(entities) ==> entities_text(entities) == (EntitiesText::Json {
            text: text@,
            schema: schema_given(schema),
        }),
{
    cedar_policy::Entities::from_json_str(text, schema).map_err(|e| e.to_string())
}

/// `Entities::empty` is the entity store without entities.
#[verifier::external_body]
pub(crate) fn empty_entities() -> (r: cedar_policy::Entities)
    ensures
        entities_text(r) is Empty,
{
    cedar_policy::Entities::empty()
}

/// Tells whether strict validation of the policies of a text against a schema can find these
/// errors.
pub uninterp spec fn validation_outcome(
    policies: Seq<char>,
    schema: SchemaText,
    errors: Seq<Seq<char>>,
) -> bool;

/// `Validator::validate`, in strict mode, lists the errors of a policy set against a schema. Their
/// order is that of a hash table, and a deeply nested policy can be left unchecked for want of
/// stack.
#[verifier::external_body]
pub(crate) fn validation_errors(
    policies: &cedar_policy::PolicySet,
    schema: &cedar_policy::Schema,
) -> (r: Vec<String>)
    ensures
        validation_outcome(policies_text(*policies), schema_text(*schema), texts(r@)),
{
    cedar_policy::Validator::new(schema.clone())
        .validate(policies, cedar_policy::ValidationMode::Strict)
        .validation_errors()
        .map(|e| e.to_string())
        .collect()
}

/// Tells whether a policy of this id can settle a request: a permit allows it, a forbid denies it.
pub open spec fn settles(policies: Seq<PolicyFacts>, id: Seq<char>, allows: bool) -> bool {
    policy_named(policies, id) is Some && policy_named(policies, id)->0.forbids == !allows
}

/// Tells whether one of the policies is a permit.
pub open spec fn has_permit(policies: Seq<PolicyFacts>) -> bool {
    exists|i: int| 0 <= i < policies.len() && !(#[trigger] policies[i]).forbids
}

/// Tells whether Cedar can answer a request so.
pub uninterp spec fn authorization_outcome(
    request: RequestHeld,
    policies: Seq<char>,
    entities: EntitiesText,
    answer: Authorization,
) -> bool;

/// `Authorizer::is_authorized` decides a request. The policies that it names as reasons are
/// policies of the set: permits where the request is allowed, forbids where it is denied. They come
/// in the order of a hash table, each once. It allows a request only if there is a permit in the
/// set, but need not name one: where a forbid cannot be evaluated to the end, an allowed request
/// comes without reasons. A policy whose evaluation fails is passed over, and a deeply nested one can
/// fail for want of stack.
#[verifier::external_body]
pub(crate) fn authorize(
    request: &cedar_policy::Request,
    policies: &cedar_policy::PolicySet,
    entities: &cedar_policy::Entities,
) -> (r: AuthorizationResponse)
    ensures
        authorization_outcome(
            request_held(*request),
            policies_text(*policies),
            entities_text(*entities),
            r@,
        ),
        r@.reasons.no_duplicates(),
        r.allows ==> has_permit(policy_listing(policies_text(*policies))),
        forall|i: int|
            0 <= i < r@.reasons.len() ==> settles(
                policy_listing(policies_text(*policies)),
                #[trigger] r@.reasons[i],
                r.allows,
            ),
{
    let response = cedar_policy::Authorizer::new().is_authorized(request, policies, entities);
    AuthorizationResponse {
        allows: matches!(response.decision(), cedar_policy::Decision::Allow),
        reasons: response.diagnostics().reason().map(
            |id| AsRef::<str>::as_ref(id).to_owned(),
        ).collect(),
    }
}

/// The policy that is found by an id is the first of that id in the list, and none is found exactly
/// where none has it.
pub proof fn law_policy_of_an_id(policies: Seq<PolicyFacts>, id: Seq<char>)
    ensures
        match policy_named(policies, id) {
            Some(policy) => exists|i: int|
                0 <= i < policies.len() && #[trigger] policies[i] == policy && policy.id == id
                    && forall|j: int| 0 <= j < i ==> (#[trigger] policies[j]).id != id,
            None => forall|j: int| 0 <= j < policies.len() ==> (#[trigger] policies[j]).id != id,
        },
    decreases policies.len(),
{
    if policies.len() > 0 && policies[0].id != id {
        let rest = policies.drop_first();
        law_policy_of_an_id(rest, id);
        match policy_named(rest, id) {
            Some(policy) => {
                let i = choose|i: int|
                    0 <= i < rest.len() && #[trigger] rest[i] == policy && policy.id == id
                        && forall|j: int| 0 <= j < i ==> (#[trigger] rest[j]).id != id;
                assert(policies[i + 1] == policy);
                assert forall|j: int| 0 <= j < i + 1 implies (#[trigger] policies[j]).id != id by {
                    if j > 0 {
                        assert(rest[j - 1] == policies[j]);
                    }
                }
            },
            None => {
                assert forall|j: int| 0 <= j < policies.len() implies (#[trigger] policies[j]).id
                    != id by {
                    if j > 0 {
                        assert(rest[j - 1] == policies[j]);
                    }
                }
            },
        }
    }
}

/// A record and an answer hold what stands in their fields, item for item.
pub proof fn law_records_hold_their_fields(
    record: PolicyRecord,
    response: AuthorizationResponse,
    i: int,
)
    ensures
        record@.id == record.id@,
        record@.forbids == record.forbids,
        record@.annotations.len() == record.annotations@.len(),
        0 <= i < record.annotations@.len() ==> record@.annotations[i] == (
            record.annotations@[i].0@,
            record.annotations@[i].1@,
        ),
        response@.allows == response.allows,
        response@.reasons.len() == response.reasons@.len(),
        0 <= i < response.reasons@.len() ==> response@.reasons[i] == response.reasons@[i]@,
{
}

} // verus!
