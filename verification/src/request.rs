//! How an evaluation envelope becomes a Cedar request.

use vstd::prelude::*;
use vstd::string::*;

use crate::cedar::{
    context_from_json, context_held, context_outcome, empty_context, new_request, parse_uid,
    request_fault, request_held, schema_given, typing, uid_fault, uid_text, ContextHeld,
    RequestHeld, SchemaText,
};
use crate::config::{CedarConfig, ResourceType};
use crate::json::{
    from_value, json_text, member, number_shown, one_step, pointer_target, to_value, value_at,
    value_text, Json, JsonValue,
};
use crate::protocol::{text_of, PluginContext, PluginIdentity};
use crate::text::chars_of;

verus! {

/// A character as it stands between double quotes: a quote or a backslash gets a backslash before
/// it.
pub open spec fn escaped(c: char) -> Seq<char> {
    if c == '\\' || c == '"' {
        seq!['\\', c]
    } else {
        seq![c]
    }
}

/// An entity id as it stands between double quotes.
pub open spec fn quoted(id: Seq<char>) -> Seq<char>
    decreases id.len(),
{
    if id.len() == 0 {
        Seq::empty()
    } else {
        escaped(id[0]) + quoted(id.drop_first())
    }
}

/// What a reader makes of the text up to the closing quote: a backslash stands for the character
/// behind it. There is no reading where a quote stands bare, or a backslash last.
pub open spec fn unquoted(text: Seq<char>) -> Option<Seq<char>>
    decreases text.len(),
{
    if text.len() == 0 {
        Some(Seq::empty())
    } else if text[0] == '"' || (text[0] == '\\' && text.len() == 1) {
        None
    } else if text[0] == '\\' {
        match unquoted(text.skip(2)) {
            Some(rest) => Some(seq![text[1]] + rest),
            None => None,
        }
    } else {
        match unquoted(text.skip(1)) {
            Some(rest) => Some(seq![text[0]] + rest),
            None => None,
        }
    }
}

/// A quoted id reads as the id: no id can end its own quotes, or pass for another.
pub proof fn law_quoted_id_reads_back(id: Seq<char>)
    ensures
        unquoted(quoted(id)) == Some(id),
    decreases id.len(),
{
    if id.len() > 0 {
        let rest = id.drop_first();
        law_quoted_id_reads_back(rest);
        let text = quoted(id);
        if id[0] == '\\' || id[0] == '"' {
            assert(text[0] == '\\' && text[1] == id[0]);
            assert(text.skip(2) == quoted(rest));
        } else {
            assert(text[0] == id[0]);
            assert(text.skip(1) == quoted(rest));
        }
        assert(seq![id[0]] + rest == id);
    }
}

/// The text of the uid of an entity, from its type and its id.
pub open spec fn entity_uid(kind: Seq<char>, id: Seq<char>) -> Seq<char> {
    kind + "::\""@ + quoted(id) + "\""@
}

/// Entities of one type with different ids have different uids.
pub proof fn law_ids_are_kept_apart(kind: Seq<char>, a: Seq<char>, b: Seq<char>)
    requires
        entity_uid(kind, a) == entity_uid(kind, b),
    ensures
        a == b,
{
    let head = kind + "::\""@;
    let tail = "\""@;
    let x = entity_uid(kind, a);
    let y = entity_uid(kind, b);
    assert(quoted(a) == x.subrange(head.len() as int, x.len() - tail.len()));
    assert(quoted(b) == y.subrange(head.len() as int, y.len() - tail.len()));
    law_quoted_id_reads_back(a);
    law_quoted_id_reads_back(b);
}

/// An entity id as it stands between double quotes.
pub fn quote_uid_id(s: &str) -> (r: String)
    ensures
        r@ == quoted(s@),
{
    let chars = chars_of(s);
    let mut out = String::new();
    let mut i: usize = 0;
    assert(s@.skip(0) == s@);
    assert(Seq::<char>::empty() + quoted(s@) == quoted(s@));
    while i < chars.len()
        invariant
            chars@ == s@,
            i <= chars@.len(),
            out@ + quoted(s@.skip(i as int)) == quoted(s@),
        decreases chars@.len() - i,
    {
        let c: char = chars[i];
        let ghost before = out@;
        if c == '\\' || c == '"' {
            out.push('\\');
        }
        out.push(c);
        proof {
            let rest = s@.skip(i as int);
            assert(rest.drop_first() == s@.skip(i + 1));
            assert(out@ == before + escaped(c));
            assert(out@ + quoted(s@.skip(i + 1)) == before + quoted(rest));
        }
        i += 1;
    }
    assert(s@.skip(s@.len() as int) == Seq::<char>::empty());
    assert(out@ + Seq::<char>::empty() == out@);
    out
}

/// The text of the uid of an entity, from its type and its id.
pub fn entity_uid_text(kind: &str, id: &str) -> (r: String)
    ensures
        r@ == entity_uid(kind@, id@),
{
    let mut out = kind.to_owned();
    out.append("::\"");
    let quoted_id = quote_uid_id(id);
    out.append(quoted_id.as_str());
    out.append("\"");
    out
}

/// The id of the principal: the subject of the request, or else the configured id.
pub open spec fn principal_id_of(config: CedarConfig, subject: Option<Seq<char>>) -> Seq<char> {
    match subject {
        Some(id) => id,
        None => config.translation.anonymous_principal_id@,
    }
}

/// The id of the principal: the subject of the request, or else the configured id.
pub fn principal_id<'a>(config: &'a CedarConfig, identity: &'a PluginIdentity) -> (r: &'a str)
    ensures
        r@ == principal_id_of(*config, identity@.subject_id),
{
    match &identity.subject_id {
        Some(id) => id.as_str(),
        None => config.translation.anonymous_principal_id.as_str(),
    }
}

/// The id of the resource, from the configured path and what stands there in the input: a string
/// as it is, a number in decimal, another value as its JSON text.
pub open spec fn resource_id_of(path: Seq<char>, found: Option<JsonValue>) -> Seq<char> {
    if path.len() == 0 {
        "unspecified"@
    } else {
        match found {
            None => "unknown"@,
            Some(JsonValue::Text(s)) => s,
            Some(JsonValue::Number(n)) => n,
            Some(other) => json_text(other),
        }
    }
}

/// The id of the resource, from the configured path and what stands there in the input.
pub fn resource_id(path: &str, found: Option<&Json>) -> (r: String)
    requires
        found matches Some(json) ==> json@.distinct(),
    ensures
        r@ == resource_id_of(
            path@,
            match found {
                Some(json) => Some(json@),
                None => None,
            },
        ),
{
    if path.is_empty() {
        return "unspecified".to_owned();
    }
    match found {
        None => "unknown".to_owned(),
        Some(Json::Text(s)) => s.clone(),
        Some(Json::Number(n)) => number_shown(n),
        Some(other) => value_text(&to_value(other)),
    }
}

/// The id of the resource, from the configured path and the input. A path of one plain step names a
/// member of the input.
pub fn resource_id_in(path: &str, input: &Json) -> (r: String)
    requires
        input@.distinct(),
    ensures
        r@ == resource_id_of(path@, pointer_target(input@, path@)),
        one_step(path@) && input@ is Object ==> r@ == resource_id_of(
            path@,
            member(input@->Object_0, path@.skip(1)),
        ),
{
    match value_at(&to_value(input), path) {
        Some(target) => resource_id(path, Some(&from_value(target))),
        None => resource_id(path, None),
    }
}

/// The input as a JSON object: itself if it is one, or else the object that has it as its only
/// member, under the name `value`.
pub open spec fn context_value(input: JsonValue) -> JsonValue {
    match input {
        JsonValue::Object(_) => input,
        _ => JsonValue::Object(seq![("value"@, input)]),
    }
}

/// The input as a JSON object.
pub fn context_json(input: &Json) -> (r: Json)
    ensures
        r@ == context_value(input@),
        r@ is Object,
        input@.distinct() ==> r@.distinct(),
{
    match input {
        Json::Object(_) => input.duplicate(),
        _ => {
            let mut members: Vec<(String, Json)> = Vec::new();
            members.push(("value".to_owned(), input.duplicate()));
            let r = Json::Object(members);
            assert(r@->Object_0 == seq![("value"@, input@)]);
            r
        },
    }
}

/// A fault, with what it is a fault of in front.
pub fn explain(what: &str, fault: &str) -> (r: String)
    ensures
        r@ == what@ + fault@,
{
    let mut out = what.to_owned();
    out.append(fault);
    out
}

/// What is said where no entry of the configuration covers a decision point.
pub open spec fn uncovered(decision_point: Seq<char>) -> Seq<char> {
    "no resource_types entry covers decision_point `"@ + decision_point
        + "` (and no `*` catch-all configured)"@
}

/// What is said where no entry of the configuration covers a decision point.
pub fn uncovered_message(decision_point: &str) -> (r: String)
    ensures
        r@ == uncovered(decision_point@),
{
    let mut out = "no resource_types entry covers decision_point `".to_owned();
    out.append(decision_point);
    out.append("` (and no `*` catch-all configured)");
    out
}

/// The three uids that an envelope names, or what is wrong with the first that Cedar refuses.
pub open spec fn request_uids(
    config: CedarConfig,
    decision_point: Seq<char>,
    input: JsonValue,
    subject: Option<Seq<char>>,
) -> Result<(Seq<char>, Seq<char>, Seq<char>), Seq<char>> {
    let principal = entity_uid(
        config.translation.principal_type@,
        principal_id_of(config, subject),
    );
    let action = entity_uid(config.translation.action_namespace@, decision_point);
    if uid_fault(principal) is Some {
        Err("invalid principal UID: "@ + uid_fault(principal)->0)
    } else if uid_fault(action) is Some {
        Err("invalid action UID: "@ + uid_fault(action)->0)
    } else {
        match config.entry_for(decision_point) {
            None => Err(uncovered(decision_point)),
            Some(entry) => {
                let path = entry.resource_id_path@;
                let resource = entity_uid(
                    entry.resource_type@,
                    resource_id_of(path, pointer_target(input, path)),
                );
                if uid_fault(resource) is Some {
                    Err("invalid resource UID: "@ + uid_fault(resource)->0)
                } else {
                    Ok((principal, action, resource))
                }
            },
        }
    }
}

/// Tells whether this can be the context of an envelope, or what is wrong with it. It is empty
/// unless the configuration asks for the input.
pub open spec fn context_can_be(
    config: CedarConfig,
    schema: Option<SchemaText>,
    action: Seq<char>,
    input: JsonValue,
    r: Result<ContextHeld, Seq<char>>,
) -> bool {
    let value = context_value(input);
    if !config.include_input_as_context {
        r == Ok::<ContextHeld, Seq<char>>(ContextHeld::Empty)
    } else {
        match r {
            Ok(held) => {
                &&& context_outcome(value, typing(schema, action), None)
                &&& held == (ContextHeld::Json { value, typing: typing(schema, action) })
            },
            Err(message) => exists|fault: Seq<char>|
                {
                    &&& #[trigger] context_outcome(value, typing(schema, action), Some(fault))
                    &&& message == "input → context translation failed: "@ + fault
                },
        }
    }
}

/// The request of these parts, or what is wrong with it.
pub open spec fn checked_request(held: RequestHeld, schema: Option<SchemaText>) -> Result<
    RequestHeld,
    Seq<char>,
> {
    match request_fault(held, schema) {
        None => Ok(held),
        Some(fault) => Err("invalid Cedar request: "@ + fault),
    }
}

/// Tells whether this can be the Cedar request of an envelope, or what is wrong with the envelope.
pub open spec fn request_can_be(
    config: CedarConfig,
    schema: Option<SchemaText>,
    decision_point: Seq<char>,
    input: JsonValue,
    subject: Option<Seq<char>>,
    r: Result<RequestHeld, Seq<char>>,
) -> bool {
    match request_uids(config, decision_point, input, subject) {
        Err(message) => r == Err::<RequestHeld, Seq<char>>(message),
        Ok((principal, action, resource)) => exists|context: Result<ContextHeld, Seq<char>>|
            {
                &&& #[trigger] context_can_be(config, schema, action, input, context)
                &&& match context {
                    Err(message) => r == Err::<RequestHeld, Seq<char>>(message),
                    Ok(context) => r == checked_request(
                        RequestHeld { principal, action, resource, context },
                        schema,
                    ),
                }
            },
    }
}

/// The translation. The request of an envelope has as principal the subject or else the anonymous
/// principal, as action the decision point, and as resource the entity that the entry for the
/// decision point finds in the input. Its context is the input where the configuration asks for it,
/// and empty where not.
pub proof fn law_request_of_an_envelope(
    config: CedarConfig,
    schema: Option<SchemaText>,
    decision_point: Seq<char>,
    input: JsonValue,
    subject: Option<Seq<char>>,
    held: RequestHeld,
)
    requires
        request_can_be(
            config,
            schema,
            decision_point,
            input,
            subject,
            Ok::<RequestHeld, Seq<char>>(held),
        ),
    ensures
        held.principal == entity_uid(
            config.translation.principal_type@,
            principal_id_of(config, subject),
        ),
        match subject {
            Some(id) => held.principal == entity_uid(config.translation.principal_type@, id),
            None => held.principal == entity_uid(
                config.translation.principal_type@,
                config.translation.anonymous_principal_id@,
            ),
        },
        held.action == entity_uid(config.translation.action_namespace@, decision_point),
        config.entry_for(decision_point) matches Some(entry) && held.resource == entity_uid(
            entry.resource_type@,
            resource_id_of(
                entry.resource_id_path@,
                pointer_target(input, entry.resource_id_path@),
            ),
        ),
        held.context == (if config.include_input_as_context {
            ContextHeld::Json {
                value: context_value(input),
                typing: typing(schema, held.action),
            }
        } else {
            ContextHeld::Empty
        }),
        request_fault(held, schema) is None,
{
}

/// What a context was made from, or what was wrong.
pub open spec fn context_result(r: Result<cedar_policy::Context, String>) -> Result<
    ContextHeld,
    Seq<char>,
> {
    match r {
        Ok(context) => Ok(context_held(context)),
        Err(message) => Err(message@),
    }
}

/// What a request was made from, or what was wrong.
pub open spec fn request_result(r: Result<cedar_policy::Request, String>) -> Result<
    RequestHeld,
    Seq<char>,
> {
    match r {
        Ok(request) => Ok(request_held(request)),
        Err(message) => Err(message@),
    }
}

/// Makes the context of an envelope.
pub fn build_context(
    config: &CedarConfig,
    schema: Option<&cedar_policy::Schema>,
    action: &cedar_policy::EntityUid,
    input: &Json,
) -> (r: Result<cedar_policy::Context, String>)
    requires
        input@.distinct(),
    ensures
        context_can_be(
            *config,
            schema_given(schema),
            uid_text(*action),
            input@,
            context_result(r),
        ),
{
    if !config.include_input_as_context {
        return Ok(empty_context());
    }
    let json = context_json(input);
    match context_from_json(to_value(&json), schema, action) {
        Ok(context) => Ok(context),
        Err(fault) => Err(explain("input → context translation failed: ", fault.as_str())),
    }
}

/// Makes the Cedar request of an envelope.
pub fn build_request(
    config: &CedarConfig,
    schema: Option<&cedar_policy::Schema>,
    decision_point: &str,
    input: &Json,
    context: &PluginContext,
) -> (r: Result<cedar_policy::Request, String>)
    requires
        input@.distinct(),
    ensures
        request_can_be(
            *config,
            schema_given(schema),
            decision_point@,
            input@,
            text_of(context.identity.subject_id),
            request_result(r),
        ),
{
    let principal_text = entity_uid_text(
        config.translation.principal_type.as_str(),
        principal_id(config, &context.identity),
    );
    let principal = match parse_uid(principal_text.as_str()) {
        Ok(uid) => uid,
        Err(fault) => return Err(explain("invalid principal UID: ", fault.as_str())),
    };
    let action_text = entity_uid_text(
        config.translation.action_namespace.as_str(),
        decision_point,
    );
    let action = match parse_uid(action_text.as_str()) {
        Ok(uid) => uid,
        Err(fault) => return Err(explain("invalid action UID: ", fault.as_str())),
    };
    let entry = match config.resource_type_for(decision_point) {
        Some(entry) => entry,
        None => return Err(uncovered_message(decision_point)),
    };
    let id = resource_id_in(entry.resource_id_path.as_str(), input);
    let resource_text = entity_uid_text(entry.resource_type.as_str(), id.as_str());
    let resource = match parse_uid(resource_text.as_str()) {
        Ok(uid) => uid,
        Err(fault) => return Err(explain("invalid resource UID: ", fault.as_str())),
    };
    let cedar_context = match build_context(config, schema, &action, input) {
        Ok(context) => context,
        Err(message) => return Err(message),
    };
    match new_request(principal, action, resource, cedar_context, schema) {
        Ok(request) => Ok(request),
        Err(fault) => Err(explain("invalid Cedar request: ", fault.as_str())),
    }
}

/// Ids are quoted character by character: a quote and a backslash get a backslash before them, and
/// every other character stays as it is.
pub proof fn law_quoting(a: Seq<char>, b: Seq<char>, c: char)
    ensures
        quoted(Seq::empty()).len() == 0,
        quoted(a + b) == quoted(a) + quoted(b),
        c == '"' ==> quoted(seq![c]) == seq!['\\', '"'],
        c == '\\' ==> quoted(seq![c]) == seq!['\\', '\\'],
        c != '"' && c != '\\' ==> quoted(seq![c]) == seq![c],
    decreases a.len(),
{
    let one = seq![c];
    assert(one.drop_first() == Seq::<char>::empty());
    assert(quoted(Seq::<char>::empty()) == Seq::<char>::empty());
    assert(quoted(one) == escaped(c) + Seq::<char>::empty());
    assert(escaped(c) + Seq::<char>::empty() == escaped(c));
    if a.len() > 0 {
        law_quoting(a.drop_first(), b, c);
        assert((a + b).drop_first() == a.drop_first() + b);
        assert(quoted(a + b) == quoted(a) + quoted(b));
    } else {
        assert(a + b == b);
        assert(quoted(a) + quoted(b) == quoted(b));
    }
}

/// The uid of an entity is its type, two colons, and its id in double quotes.
pub proof fn law_uid_of_an_entity(kind: Seq<char>, id: Seq<char>)
    ensures
        entity_uid(kind, id) == kind + seq![':', ':', '"'] + quoted(id) + seq!['"'],
{
    reveal_strlit("::\"");
    reveal_strlit("\"");
    assert("::\""@ == seq![':', ':', '"']);
    assert("\""@ == seq!['"']);
}

/// The id of a resource: without a path it is unspecified, where the path points nowhere unknown, and
/// otherwise what the path points at, a text and a number as they stand.
pub proof fn law_id_of_a_resource(path: Seq<char>, found: Option<JsonValue>)
    ensures
        path.len() == 0 ==> resource_id_of(path, found) == "unspecified"@,
        path.len() > 0 && found is None ==> resource_id_of(path, found) == "unknown"@,
        path.len() > 0 ==> (found matches Some(JsonValue::Text(s)) ==> resource_id_of(path, found)
            == s),
        path.len() > 0 ==> (found matches Some(JsonValue::Number(n)) ==> resource_id_of(path, found)
            == n),
        path.len() > 0 ==> (found matches Some(v) ==> !(v is Text) && !(v is Number)
            ==> resource_id_of(path, found) == json_text(v)),
{
}

/// The uid of the principal of a request: the subject, or else the anonymous principal that is
/// configured, under the configured type.
pub open spec fn principal_written(config: CedarConfig, subject: Option<Seq<char>>) -> Seq<char> {
    match subject {
        Some(id) => config.translation.principal_type@ + seq![':', ':', '"'] + quoted(id)
            + seq!['"'],
        None => config.translation.principal_type@ + seq![':', ':', '"'] + quoted(
            config.translation.anonymous_principal_id@,
        ) + seq!['"'],
    }
}

/// The uid of the action of a request: the decision point, under the configured namespace.
pub open spec fn action_written(config: CedarConfig, decision_point: Seq<char>) -> Seq<char> {
    config.translation.action_namespace@ + seq![':', ':', '"'] + quoted(decision_point) + seq!['"']
}

/// Tells whether this is the uid of the resource that an entry finds in the input.
pub open spec fn resource_written(entry: ResourceType, input: JsonValue, uid: Seq<char>) -> bool {
    let path = entry.resource_id_path@;
    let target = pointer_target(input, path);
    let named = |id: Seq<char>|
        uid == entry.resource_type@ + seq![':', ':', '"'] + quoted(id) + seq!['"'];
    &&& path.len() == 0 ==> named("unspecified"@)
    &&& path.len() > 0 && target is None ==> named("unknown"@)
    &&& path.len() > 0 ==> (target matches Some(JsonValue::Text(s)) ==> named(s))
    &&& path.len() > 0 ==> (target matches Some(JsonValue::Number(n)) ==> named(n))
    &&& path.len() > 0 ==> (target matches Some(v) ==> !(v is Text) && !(v is Number) ==> named(
        json_text(v),
    ))
}

/// Tells whether an entry is the one that covers a decision point: it names it, or it is a catch-all
/// and no entry names it; and no entry before it has the same decision point.
pub open spec fn covers(config: CedarConfig, decision_point: Seq<char>, entry: ResourceType) -> bool {
    let entries = config.translation.resource_types@;
    exists|i: int|
        {
            &&& 0 <= i < entries.len()
            &&& #[trigger] entries[i] == entry
            &&& forall|j: int|
                0 <= j < i ==> (#[trigger] entries[j]).decision_point@ != entry.decision_point@
            &&& entry.decision_point@ == decision_point || (entry.decision_point@ == "*"@
                && forall|j: int|
                0 <= j < entries.len() ==> (#[trigger] entries[j]).decision_point@
                    != decision_point)
        }
}

/// Tells whether no entry names a decision point, and none is a catch-all.
pub open spec fn is_uncovered(config: CedarConfig, decision_point: Seq<char>) -> bool {
    let entries = config.translation.resource_types@;
    forall|j: int|
        0 <= j < entries.len() ==> (#[trigger] entries[j]).decision_point@ != decision_point
            && entries[j].decision_point@ != "*"@
}

/// Tells whether this is a JSON object that stands for an input: an object stands for itself, and any
/// other value is the only member of one, under the name `value`.
pub open spec fn context_written(input: JsonValue, value: JsonValue) -> bool {
    if input is Object {
        value == input
    } else {
        value == JsonValue::Object(seq![("value"@, input)])
    }
}

/// Tells whether a context has the type that the schema, where there is one, declares for the action.
pub open spec fn is_typed(
    schema: Option<SchemaText>,
    action: Seq<char>,
    t: Option<(SchemaText, Seq<char>)>,
) -> bool {
    match schema {
        Some(text) => t == Some((text, action)),
        None => t is None,
    }
}

proof fn lemma_written(
    config: CedarConfig,
    decision_point: Seq<char>,
    input: JsonValue,
    subject: Option<Seq<char>>,
)
    ensures
        entity_uid(config.translation.principal_type@, principal_id_of(config, subject))
            == principal_written(config, subject),
        entity_uid(config.translation.action_namespace@, decision_point) == action_written(
            config,
            decision_point,
        ),
        match config.entry_for(decision_point) {
            Some(entry) => {
                &&& covers(config, decision_point, entry)
                &&& resource_written(
                    entry,
                    input,
                    entity_uid(
                        entry.resource_type@,
                        resource_id_of(
                            entry.resource_id_path@,
                            pointer_target(input, entry.resource_id_path@),
                        ),
                    ),
                )
            },
            None => is_uncovered(config, decision_point),
        },
        context_written(input, context_value(input)),
{
    law_uid_of_an_entity(
        config.translation.principal_type@,
        principal_id_of(config, subject),
    );
    law_uid_of_an_entity(config.translation.action_namespace@, decision_point);
    crate::config::law_entry_for_a_decision_point(config, decision_point);
    if let Some(entry) = config.entry_for(decision_point) {
        let path = entry.resource_id_path@;
        let id = resource_id_of(path, pointer_target(input, path));
        law_uid_of_an_entity(entry.resource_type@, id);
        law_id_of_a_resource(path, pointer_target(input, path));
    }
}

/// The request of an envelope, from what stands in the configuration and the envelope: the subject or
/// the configured anonymous principal, the decision point, the resource that the covering entry
/// finds, and the input where it is asked for. Cedar accepts its uids, and the whole under the schema.
pub proof fn law_parts_of_a_request(
    config: CedarConfig,
    schema: Option<SchemaText>,
    decision_point: Seq<char>,
    input: JsonValue,
    subject: Option<Seq<char>>,
    held: RequestHeld,
)
    requires
        request_can_be(
            config,
            schema,
            decision_point,
            input,
            subject,
            Ok::<RequestHeld, Seq<char>>(held),
        ),
    ensures
        held.principal == principal_written(config, subject),
        subject matches Some(id) ==> held.principal == config.translation.principal_type@ + seq![
            ':',
            ':',
            '"',
        ] + quoted(id) + seq!['"'],
        subject is None ==> held.principal == config.translation.principal_type@ + seq![
            ':',
            ':',
            '"',
        ] + quoted(config.translation.anonymous_principal_id@) + seq!['"'],
        held.action == action_written(config, decision_point),
        exists|entry: ResourceType| #[trigger]
            covers(config, decision_point, entry) && resource_written(entry, input, held.resource),
        !config.include_input_as_context ==> held.context is Empty,
        config.include_input_as_context ==> {
            &&& held.context matches ContextHeld::Json { value, typing: t }
            &&& context_written(input, value)
            &&& context_outcome(value, t, None)
            &&& is_typed(schema, held.action, t)
        },
        uid_fault(held.principal) is None,
        uid_fault(held.action) is None,
        uid_fault(held.resource) is None,
        request_fault(held, schema) is None,
{
    lemma_written(config, decision_point, input, subject);
}

/// Why an envelope does not translate, in the order in which it is looked at: the principal, the
/// action, the entry for the decision point, the resource, the context, the request as a whole.
pub proof fn law_untranslatable_envelopes(
    config: CedarConfig,
    schema: Option<SchemaText>,
    decision_point: Seq<char>,
    input: JsonValue,
    subject: Option<Seq<char>>,
    message: Seq<char>,
)
    requires
        request_can_be(
            config,
            schema,
            decision_point,
            input,
            subject,
            Err::<RequestHeld, Seq<char>>(message),
        ),
    ensures
        ({
            let p = uid_fault(principal_written(config, subject));
            let a = uid_fault(action_written(config, decision_point));
            match (p, a) {
                (Some(fault), _) => message == "invalid principal UID: "@ + fault,
                (None, Some(fault)) => message == "invalid action UID: "@ + fault,
                (None, None) => {
                    ||| is_uncovered(config, decision_point) && message
                        == "no resource_types entry covers decision_point `"@ + decision_point
                        + "` (and no `*` catch-all configured)"@
                    ||| exists|entry: ResourceType, uid: Seq<char>|
                        {
                            &&& covers(config, decision_point, entry)
                            &&& #[trigger] resource_written(entry, input, uid)
                            &&& match uid_fault(uid) {
                                Some(fault) => message == "invalid resource UID: "@ + fault,
                                None => translation_stops(
                                    config,
                                    schema,
                                    input,
                                    principal_written(config, subject),
                                    action_written(config, decision_point),
                                    uid,
                                    message,
                                ),
                            }
                        }
                },
            }
        }),
{
    lemma_written(config, decision_point, input, subject);
    if let Ok((principal, action, resource)) = request_uids(
        config,
        decision_point,
        input,
        subject,
    ) {
        let context = choose|context: Result<ContextHeld, Seq<char>>|
            {
                &&& #[trigger] context_can_be(config, schema, action, input, context)
                &&& match context {
                    Err(m) => message == m,
                    Ok(context) => Err::<RequestHeld, Seq<char>>(message) == checked_request(
                        RequestHeld { principal, action, resource, context },
                        schema,
                    ),
                }
            };
        if let Ok(held) = context {
            let request = RequestHeld { principal, action, resource, context: held };
            assert(request_fault(request, schema) is Some);
        } else {
            let fault = choose|fault: Seq<char>|
                {
                    &&& #[trigger] context_outcome(
                        context_value(input),
                        typing(schema, action),
                        Some(fault),
                    )
                    &&& message == "input → context translation failed: "@ + fault
                };
            assert(context_written(input, context_value(input)));
            assert(is_typed(schema, action, typing(schema, action)));
        }
        let entry = config.entry_for(decision_point)->0;
        assert(resource_written(entry, input, resource));
        assert(translation_stops(config, schema, input, principal, action, resource, message));
    } else {
        if let Some(entry) = config.entry_for(decision_point) {
            let path = entry.resource_id_path@;
            assert(resource_written(
                entry,
                input,
                entity_uid(
                    entry.resource_type@,
                    resource_id_of(path, pointer_target(input, path)),
                ),
            ));
        }
    }
}

/// Tells whether an envelope with these uids stops with this message: Cedar refuses the input as
/// context, or the request under the schema.
pub open spec fn translation_stops(
    config: CedarConfig,
    schema: Option<SchemaText>,
    input: JsonValue,
    principal: Seq<char>,
    action: Seq<char>,
    resource: Seq<char>,
    message: Seq<char>,
) -> bool {
    ||| config.include_input_as_context && exists|
        value: JsonValue,
        t: Option<(SchemaText, Seq<char>)>,
        fault: Seq<char>,
    |
        {
            &&& context_written(input, value)
            &&& is_typed(schema, action, t)
            &&& #[trigger] context_outcome(value, t, Some(fault))
            &&& message == "input → context translation failed: "@ + fault
        }
    ||| exists|held: RequestHeld|
        {
            &&& held.principal == principal
            &&& held.action == action
            &&& held.resource == resource
            &&& (if config.include_input_as_context {
                held.context matches ContextHeld::Json { value, typing: t } && context_written(
                    input,
                    value,
                ) && is_typed(schema, action, t) && context_outcome(value, t, None)
            } else {
                held.context is Empty
            })
            &&& (#[trigger] request_fault(held, schema)) matches Some(fault) && message
                == "invalid Cedar request: "@ + fault
        }
}

/// The context of an envelope: empty unless the input is asked for, and otherwise made of the input.
pub proof fn law_context_of_an_envelope(
    config: CedarConfig,
    schema: Option<SchemaText>,
    action: Seq<char>,
    input: JsonValue,
    r: Result<ContextHeld, Seq<char>>,
)
    requires
        context_can_be(config, schema, action, input, r),
    ensures
        !config.include_input_as_context ==> (r matches Ok(held) && held is Empty),
        config.include_input_as_context ==> match r {
            Ok(held) => {
                &&& held matches ContextHeld::Json { value, typing: t }
                &&& context_written(input, value)
                &&& context_outcome(value, t, None)
                &&& is_typed(schema, action, t)
            },
            Err(message) => exists|
                value: JsonValue,
                t: Option<(SchemaText, Seq<char>)>,
                fault: Seq<char>,
            |
                {
                    &&& context_written(input, value)
                    &&& is_typed(schema, action, t)
                    &&& #[trigger] context_outcome(value, t, Some(fault))
                    &&& message == "input → context translation failed: "@ + fault
                },
        },
{
    assert(context_written(input, context_value(input)));
    assert(is_typed(schema, action, typing(schema, action)));
}

/// What is told of a context and of a request is what they were made from, or what was wrong.
pub proof fn law_results_hold_what_was_made(
    context: Result<cedar_policy::Context, String>,
    request: Result<cedar_policy::Request, String>,
)
    ensures
        match context {
            Ok(c) => context_result(context) == Ok::<ContextHeld, Seq<char>>(context_held(c)),
            Err(m) => context_result(context) == Err::<ContextHeld, Seq<char>>(m@),
        },
        match request {
            Ok(q) => request_result(request) == Ok::<RequestHeld, Seq<char>>(request_held(q)),
            Err(m) => request_result(request) == Err::<RequestHeld, Seq<char>>(m@),
        },
{
}

} // verus!
