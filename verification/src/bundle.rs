//! The policies, the schema and the entities that are in force, and how they are loaded.

use vstd::prelude::*;
use vstd::string::*;

use crate::cedar::{
    authorization_outcome, authorize, empty_entities, entities_outcome, entities_text, has_permit,
    is_cedar_schema, is_word, json_schema_outcome, pairs, parse_policies, policies_fault, policies_text,
    policy_annotations, policy_id_shown, policy_listing, policy_named, policy_records,
    read_cedar_schema, read_entities, read_json_schema, request_held, schema_given, schema_text,
    settles, show_policy_id, validation_errors, validation_outcome, AuthorizationResponse,
    EntitiesText, PolicyFacts, PolicyRecord, SchemaText,
};
use crate::config::CedarConfig;
use crate::request::explain;
use crate::text::{join, joined, same_text, texts};

verus! {

/// A place that the bundle is loaded from.
#[derive(Debug)]
pub enum SourcePart {
    /// The files with this extension in a directory, or all of its files.
    Directory { root: String, extension: Option<String> },
    File(String),
}

/// The places that the bundle is loaded from. A change in any of them makes a new bundle.
#[derive(Debug)]
pub enum BundleSource {
    Single(SourcePart),
    Composite(Vec<SourcePart>),
}

/// A place that the bundle is loaded from, as a mathematical value.
pub enum Place {
    Directory { root: Seq<char>, extension: Option<Seq<char>> },
    File(Seq<char>),
}

/// The places that the bundle is loaded from, as a mathematical value.
pub enum Places {
    Single(Place),
    Composite(Seq<Place>),
}

impl View for SourcePart {
    type V = Place;

    open spec fn view(&self) -> Place {
        match *self {
            SourcePart::Directory { root, extension } => Place::Directory {
                root: root@,
                extension: crate::protocol::text_of(extension),
            },
            SourcePart::File(path) => Place::File(path@),
        }
    }
}

impl View for BundleSource {
    type V = Places;

    open spec fn view(&self) -> Places {
        match *self {
            BundleSource::Single(part) => Places::Single(part@),
            BundleSource::Composite(parts) => Places::Composite(
                parts@.map_values(|p: SourcePart| p@),
            ),
        }
    }
}

/// The places that a configuration names: the `.cedar` files of the policy directory, then the
/// schema file and the entities file where there are any.
pub open spec fn configured_places(config: CedarConfig) -> Seq<Place> {
    let directory = Place::Directory { root: config.policy_dir@, extension: Some("cedar"@) };
    let schema = match config.schema_path {
        Some(path) => seq![Place::File(path@)],
        None => Seq::empty(),
    };
    let entities = match config.entities_path {
        Some(path) => seq![Place::File(path@)],
        None => Seq::empty(),
    };
    seq![directory] + schema + entities
}

/// The places that the bundle of a configuration is loaded from.
pub fn bundle_source(config: &CedarConfig) -> (r: BundleSource)
    ensures
        r@ == (if configured_places(*config).len() == 1 {
            Places::Single(configured_places(*config)[0])
        } else {
            Places::Composite(configured_places(*config))
        }),
{
    let directory = SourcePart::Directory {
        root: config.policy_dir.clone(),
        extension: Some("cedar".to_owned()),
    };
    if config.schema_path.is_none() && config.entities_path.is_none() {
        return BundleSource::Single(directory);
    }
    let mut parts: Vec<SourcePart> = Vec::new();
    parts.push(directory);
    if let Some(path) = &config.schema_path {
        parts.push(SourcePart::File(path.clone()));
    }
    if let Some(path) = &config.entities_path {
        parts.push(SourcePart::File(path.clone()));
    }
    assert(parts@.map_values(|p: SourcePart| p@) == configured_places(*config));
    BundleSource::Composite(parts)
}

/// Why a bundle was not loaded.
#[derive(Debug)]
pub enum ReloadError {
    /// A file could not be read.
    Io { path: String, error: String },
    /// What was read is not in order.
    Parse(String),
}

/// Why a bundle was not loaded, as a mathematical value.
pub enum ReloadFault {
    Io { path: Seq<char>, error: Seq<char> },
    Parse(Seq<char>),
}

impl View for ReloadError {
    type V = ReloadFault;

    open spec fn view(&self) -> ReloadFault {
        match *self {
            ReloadError::Io { path, error } => ReloadFault::Io { path: path@, error: error@ },
            ReloadError::Parse(text) => ReloadFault::Parse(text@),
        }
    }
}

/// A text file, or why it could not be read.
#[derive(Debug)]
pub struct TextFile {
    pub path: String,
    pub contents: Result<String, String>,
}

/// A file of policies, or why it could not be read.
#[derive(Debug)]
pub struct PolicyFile {
    pub path: String,
    pub contents: Result<Vec<u8>, String>,
}

/// What Rust says of bytes that are no UTF-8.
pub uninterp spec fn utf8_fault(bytes: Seq<u8>) -> Seq<char>;

/// `std::str::from_utf8` takes bytes as UTF-8 text, and refuses those that are none.
#[verifier::external_body]
fn decode(bytes: &[u8]) -> (r: Result<&str, String>)
    ensures
        match r {
            Ok(text) => {
                &&& vstd::utf8::valid_utf8(bytes@)
                &&& text@ == vstd::utf8::decode_utf8(bytes@)
            },
            Err(fault) => !vstd::utf8::valid_utf8(bytes@) && fault@ == utf8_fault(bytes@),
        },
{
    std::str::from_utf8(bytes).map_err(|e| e.to_string())
}

/// The text of a file of policies, or why there is none.
pub open spec fn policy_text(file: PolicyFile) -> Result<Seq<char>, ReloadFault> {
    match file.contents {
        Err(error) => Err(ReloadFault::Io { path: file.path@, error: error@ }),
        Ok(bytes) => if vstd::utf8::valid_utf8(bytes@) {
            Ok(vstd::utf8::decode_utf8(bytes@))
        } else {
            Err(ReloadFault::Parse("non-utf8 in "@ + file.path@ + ": "@ + utf8_fault(bytes@)))
        },
    }
}

/// The texts of the files of policies in order, each with a line end behind it, or what is wrong
/// with the first faulty file.
pub open spec fn combined_text(files: Seq<PolicyFile>) -> Result<Seq<char>, ReloadFault>
    decreases files.len(),
{
    if files.len() == 0 {
        Ok(Seq::empty())
    } else {
        match combined_text(files.drop_last()) {
            Err(fault) => Err(fault),
            Ok(before) => match policy_text(files.last()) {
                Err(fault) => Err(fault),
                Ok(text) => Ok((before + text).push('\n')),
            },
        }
    }
}

/// A text, or what is wrong.
pub open spec fn text_result(r: Result<String, ReloadError>) -> Result<Seq<char>, ReloadFault> {
    match r {
        Ok(text) => Ok(text@),
        Err(e) => Err(e@),
    }
}

proof fn lemma_fault_stays(files: Seq<PolicyFile>, n: int)
    requires
        0 <= n <= files.len(),
        combined_text(files.take(n)) is Err,
    ensures
        combined_text(files) == combined_text(files.take(n)),
    decreases files.len(),
{
    if n < files.len() {
        assert(files.drop_last().take(n) == files.take(n));
        lemma_fault_stays(files.drop_last(), n);
    } else {
        assert(files.take(n) == files);
    }
}

/// Puts the files of policies together.
pub fn combine(files: &Vec<PolicyFile>) -> (r: Result<String, ReloadError>)
    ensures
        text_result(r) == combined_text(files@),
{
    let mut combined = String::new();
    let mut i: usize = 0;
    assert(files@.take(0) == Seq::<PolicyFile>::empty());
    while i < files.len()
        invariant
            i <= files@.len(),
            combined_text(files@.take(i as int)) == Ok::<Seq<char>, ReloadFault>(combined@),
        decreases files@.len() - i,
    {
        let file = &files[i];
        proof {
            let t = files@.take(i + 1);
            assert(t.drop_last() == files@.take(i as int));
            assert(t.last() == *file);
            if combined_text(t) is Err {
                lemma_fault_stays(files@, i + 1);
            }
        }
        let bytes = match &file.contents {
            Ok(bytes) => bytes,
            Err(error) => {
                return Err(
                    ReloadError::Io { path: file.path.clone(), error: error.clone() },
                );
            },
        };
        let text = match decode(bytes.as_slice()) {
            Ok(text) => text,
            Err(fault) => {
                let mut message = explain("non-utf8 in ", file.path.as_str());
                message.append(": ");
                message.append(fault.as_str());
                return Err(ReloadError::Parse(message));
            },
        };
        combined.append(text);
        combined.push('\n');
        i += 1;
    }
    assert(files@.take(files@.len() as int) == files@);
    Ok(combined)
}

/// Tells whether a policy of this id is a forbid.
pub open spec fn is_forbid(policies: Seq<PolicyFacts>, id: Seq<char>) -> bool {
    policy_named(policies, id) is Some && policy_named(policies, id)->0.forbids
}

/// The policies, the schema and the entities that are in force.
pub struct CompiledBundle {
    policy_set: cedar_policy::PolicySet,
    /// The ids of the forbids among the policies.
    forbid_ids: Vec<String>,
    schema: Option<cedar_policy::Schema>,
    entities: cedar_policy::Entities,
}

/// The texts that a bundle was loaded from.
pub struct BundleText {
    pub policies: Seq<char>,
    pub schema: Option<SchemaText>,
    pub entities: EntitiesText,
}

impl View for CompiledBundle {
    type V = BundleText;

    closed spec fn view(&self) -> BundleText {
        BundleText {
            policies: policies_text(self.policy_set),
            schema: match self.schema {
                Some(schema) => Some(schema_text(schema)),
                None => None,
            },
            entities: entities_text(self.entities),
        }
    }
}

/// What is known of a policy that settled a request: its id as it is shown, whether it forbids, and
/// its annotations by key and value.
#[derive(Debug)]
pub struct MatchedPolicy {
    pub id: String,
    pub forbids: bool,
    pub annotations: Vec<(String, String)>,
}

impl View for MatchedPolicy {
    type V = PolicyFacts;

    open spec fn view(&self) -> PolicyFacts {
        PolicyFacts {
            id: self.id@,
            forbids: self.forbids,
            annotations: pairs(self.annotations@),
        }
    }
}

/// What is known of the policy of this id, under the id as it is shown.
pub open spec fn matched_policy(policies: Seq<PolicyFacts>, id: Seq<char>) -> PolicyFacts {
    PolicyFacts {
        id: policy_id_shown(id),
        forbids: is_forbid(policies, id),
        annotations: match policy_named(policies, id) {
            Some(policy) => policy.annotations,
            None => Seq::empty(),
        },
    }
}

impl CompiledBundle {
    /// The ids of the forbids are those of the policies that forbid.
    #[verifier::type_invariant]
    spec fn wf(self) -> bool {
        forall|id: Seq<char>| #[trigger]
            texts(self.forbid_ids@).contains(id) <==> is_forbid(policy_listing(self@.policies), id)
    }

    /// The schema, where there is one.
    pub fn schema(&self) -> (r: Option<&cedar_policy::Schema>)
        ensures
            schema_given(r) == self@.schema,
    {
        self.schema.as_ref()
    }

    /// The number of policies.
    pub fn policies_count(&self) -> (r: usize)
        ensures
            r == policy_listing(self@.policies).len(),
    {
        policy_records(&self.policy_set).len()
    }

    /// Asks Cedar about a request. The policies that settle it are policies of this bundle.
    pub fn answer(&self, request: &cedar_policy::Request) -> (r: AuthorizationResponse)
        ensures
            authorization_outcome(request_held(*request), self@.policies, self@.entities, r@),
            r@.reasons.no_duplicates(),
            r@.allows ==> has_permit(policy_listing(self@.policies)),
            forall|i: int|
                0 <= i < r@.reasons.len() ==> settles(
                    policy_listing(self@.policies),
                    #[trigger] r@.reasons[i],
                    r@.allows,
                ),
    {
        authorize(request, &self.policy_set, &self.entities)
    }

    /// Tells whether a policy of this id is a forbid.
    pub fn forbids(&self, id: &str) -> (r: bool)
        ensures
            r == is_forbid(policy_listing(self@.policies), id@),
    {
        proof {
            use_type_invariant(self);
        }
        let mut i: usize = 0;
        while i < self.forbid_ids.len()
            invariant
                i <= self.forbid_ids@.len(),
                self.wf(),
                forall|j: int| 0 <= j < i ==> (#[trigger] self.forbid_ids@[j])@ != id@,
            decreases self.forbid_ids@.len() - i,
        {
            if same_text(self.forbid_ids[i].as_str(), id) {
                assert(texts(self.forbid_ids@)[i as int] == id@);
                assert(texts(self.forbid_ids@).contains(id@));
                return true;
            }
            i += 1;
        }
        assert(!texts(self.forbid_ids@).contains(id@));
        false
    }

    /// What is known of the policy of this id. An id that is a word is shown as it is.
    pub fn matched(&self, id: &str) -> (r: MatchedPolicy)
        ensures
            r@ == matched_policy(policy_listing(self@.policies), id@),
            is_word(id@) ==> r@.id == id@,
    {
        let annotations: Vec<(String, String)> = match policy_annotations(&self.policy_set, id) {
            Some(annotations) => annotations,
            None => {
                let none: Vec<(String, String)> = Vec::new();
                assert(pairs(none@) == Seq::<(Seq<char>, Seq<char>)>::empty());
                none
            },
        };
        MatchedPolicy { id: show_policy_id(id), forbids: self.forbids(id), annotations }
    }
}

proof fn lemma_policy_named(policies: Seq<PolicyFacts>, i: int)
    requires
        0 <= i < policies.len(),
        crate::cedar::ids_distinct(policies),
    ensures
        policy_named(policies, policies[i].id) == Some(policies[i]),
    decreases policies.len(),
{
    if i > 0 {
        let rest = policies.drop_first();
        assert(policies[0].id != policies[i].id);
        assert forall|j: int, k: int| 0 <= j < k < rest.len() implies (#[trigger] rest[j]).id != (
        #[trigger] rest[k]).id by {
            assert(rest[j] == policies[j + 1] && rest[k] == policies[k + 1]);
        }
        lemma_policy_named(rest, i - 1);
    }
}

/// A policy that is found by its id is one of the policies.
pub proof fn lemma_named_policy_is_listed(policies: Seq<PolicyFacts>, id: Seq<char>) -> (i: int)
    requires
        policy_named(policies, id) is Some,
    ensures
        0 <= i < policies.len(),
        policies[i] == policy_named(policies, id)->0,
        policies[i].id == id,
    decreases policies.len(),
{
    if policies[0].id == id {
        0
    } else {
        1 + lemma_named_policy_is_listed(policies.drop_first(), id)
    }
}

/// Tells whether one of these policies is a forbid of this id.
spec fn forbid_among(policies: Seq<PolicyFacts>, id: Seq<char>) -> bool {
    exists|k: int|
        0 <= k < policies.len() && (#[trigger] policies[k]).forbids && policies[k].id == id
}

/// The ids of the forbids among policies.
pub fn forbid_ids_of(records: &Vec<PolicyRecord>) -> (r: Vec<String>)
    requires
        crate::cedar::ids_distinct(records@.map_values(|p: PolicyRecord| p@)),
    ensures
        forall|id: Seq<char>| #[trigger]
            texts(r@).contains(id) <==> is_forbid(records@.map_values(|p: PolicyRecord| p@), id),
{
    let mut out: Vec<String> = Vec::new();
    let mut i: usize = 0;
    let ghost policies = records@.map_values(|p: PolicyRecord| p@);
    while i < records.len()
        invariant
            i <= records@.len(),
            policies == records@.map_values(|p: PolicyRecord| p@),
            forall|j: int|
                0 <= j < out@.len() ==> forbid_among(policies.take(i as int), (
                #[trigger] out@[j])@),
            forall|k: int|
                0 <= k < i && (#[trigger] policies[k]).forbids ==> texts(out@).contains(
                    policies[k].id,
                ),
        decreases records@.len() - i,
    {
        let ghost before = out@;
        assert(policies[i as int] == records@[i as int]@);
        proof {
            assert forall|id: Seq<char>|
                forbid_among(policies.take(i as int), id) implies forbid_among(
                policies.take(i + 1),
                id,
            ) by {
                let k = choose|k: int|
                    0 <= k < i && (#[trigger] policies.take(i as int)[k]).forbids && policies.take(
                        i as int,
                    )[k].id == id;
                assert(policies.take(i + 1)[k] == policies.take(i as int)[k]);
            }
            assert(policies.take(i + 1)[i as int] == policies[i as int]);
        }
        if records[i].forbids {
            out.push(records[i].id.clone());
            proof {
                assert forall|k: int|
                    0 <= k < i + 1 && (#[trigger] policies[k]).forbids implies texts(
                    out@,
                ).contains(policies[k].id) by {
                    if k < i {
                        let at = texts(before).index_of(policies[k].id);
                        assert(texts(before)[at] == policies[k].id);
                        assert(texts(out@)[at] == policies[k].id);
                    } else {
                        assert(texts(out@)[before.len() as int] == policies[k].id);
                    }
                }
            }
        }
        i += 1;
    }
    proof {
        assert forall|id: Seq<char>| #[trigger]
            texts(out@).contains(id) <==> is_forbid(policies, id) by {
            if texts(out@).contains(id) {
                let at = texts(out@).index_of(id);
                assert(out@[at]@ == id);
                assert(policies.take(i as int) == policies);
                let k = choose|k: int|
                    0 <= k < policies.len() && (#[trigger] policies[k]).forbids && policies[k].id
                        == id;
                lemma_policy_named(policies, k);
            }
            if is_forbid(policies, id) {
                let k = lemma_named_policy_is_listed(policies, id);
                assert(policies[k].forbids);
            }
        }
    }
    out
}

/// What strict validation of policies against a schema makes of them, from the errors that it
/// found.
pub open spec fn validated(policies: Seq<char>, errors: Seq<Seq<char>>) -> Result<
    Seq<char>,
    ReloadFault,
> {
    if errors.len() == 0 {
        Ok(policies)
    } else {
        Err(ReloadFault::Parse("schema validation failed: "@ + joined(errors, "; "@)))
    }
}

/// Accepts policies in which validation found no errors.
pub fn accept_validated(errors: &Vec<String>) -> (r: Result<(), ReloadError>)
    ensures
        match r {
            Ok(()) => errors@.len() == 0,
            Err(e) => {
                &&& errors@.len() > 0
                &&& e@ == ReloadFault::Parse(
                    "schema validation failed: "@ + joined(texts(errors@), "; "@),
                )
            },
        },
{
    if errors.len() == 0 {
        return Ok(());
    }
    let listed = join(errors, "; ");
    Err(ReloadError::Parse(explain("schema validation failed: ", listed.as_str())))
}

/// Tells whether this can become of the texts of the policies under a schema.
pub open spec fn policies_can_be(
    combined: Result<Seq<char>, ReloadFault>,
    schema: Option<SchemaText>,
    r: Result<Seq<char>, ReloadFault>,
) -> bool {
    match combined {
        Err(fault) => r == Err::<Seq<char>, ReloadFault>(fault),
        Ok(text) => match policies_fault(text) {
            Some(fault) => r == Err::<Seq<char>, ReloadFault>(
                ReloadFault::Parse("parsing combined PolicySet: "@ + fault),
            ),
            None => match schema {
                None => r == Ok::<Seq<char>, ReloadFault>(text),
                Some(schema) => exists|errors: Seq<Seq<char>>|
                    {
                        &&& #[trigger] validation_outcome(text, schema, errors)
                        &&& r == validated(text, errors)
                    },
            },
        },
    }
}

/// The texts of the files that could be listed, or why none could.
pub open spec fn listed_text(files: Result<Vec<PolicyFile>, ReloadError>) -> Result<
    Seq<char>,
    ReloadFault,
> {
    match files {
        Err(e) => Err(e@),
        Ok(files) => combined_text(files@),
    }
}

/// The text of the policies of a bundle, or what is wrong.
pub open spec fn policies_result(r: Result<CompiledBundle, ReloadError>) -> Result<
    Seq<char>,
    ReloadFault,
> {
    match r {
        Ok(bundle) => Ok(bundle@.policies),
        Err(e) => Err(e@),
    }
}

/// Compiles the files of policies into one policy set, and checks it against the schema where there
/// is one. The bundle has no schema and no entities yet.
pub fn parse_bundle_with_schema(
    files: Result<Vec<PolicyFile>, ReloadError>,
    schema: Option<&cedar_policy::Schema>,
) -> (r: Result<CompiledBundle, ReloadError>)
    ensures
        policies_can_be(listed_text(files), schema_given(schema), policies_result(r)),
        r matches Ok(bundle) ==> bundle@.schema is None && bundle@.entities is Empty,
{
    let files: Vec<PolicyFile> = match files {
        Ok(files) => files,
        Err(e) => return Err(e),
    };
    let combined: String = match combine(&files) {
        Ok(text) => text,
        Err(e) => return Err(e),
    };
    let policy_set = match parse_policies(combined.as_str()) {
        Ok(policies) => policies,
        Err(fault) => {
            return Err(
                ReloadError::Parse(explain("parsing combined PolicySet: ", fault.as_str())),
            );
        },
    };
    if let Some(schema) = schema {
        let errors = validation_errors(&policy_set, schema);
        match accept_validated(&errors) {
            Ok(()) => {},
            Err(e) => return Err(e),
        }
    }
    let forbid_ids = forbid_ids_of(&policy_records(&policy_set));
    Ok(CompiledBundle { policy_set, forbid_ids, schema: None, entities: empty_entities() })
}

/// What is said of a file that Cedar refuses.
pub open spec fn refused(what: Seq<char>, path: Seq<char>, fault: Seq<char>) -> Seq<char> {
    what + " parse '"@ + path + "' failed: "@ + fault
}

/// What is said of a file that Cedar refuses.
pub fn refusal(what: &str, path: &str, fault: &str) -> (r: String)
    ensures
        r@ == refused(what@, path@, fault@),
{
    let mut out = explain(what, " parse '");
    out.append(path);
    out.append("' failed: ");
    out.append(fault);
    out
}

/// Tells whether this can become of the schema file. Cedar syntax is tried first, then JSON.
pub open spec fn schema_can_be(
    file: Option<TextFile>,
    r: Result<Option<SchemaText>, ReloadFault>,
) -> bool {
    match file {
        None => r == Ok::<Option<SchemaText>, ReloadFault>(None),
        Some(file) => match file.contents {
            Err(error) => r == Err::<Option<SchemaText>, ReloadFault>(
                ReloadFault::Io { path: file.path@, error: error@ },
            ),
            Ok(text) => if is_cedar_schema(text@) {
                r == Ok::<Option<SchemaText>, ReloadFault>(Some(SchemaText::Cedar(text@)))
            } else {
                match r {
                    Ok(schema) => {
                        &&& json_schema_outcome(text@, None)
                        &&& schema == Some(SchemaText::Json(text@))
                    },
                    Err(e) => exists|fault: Seq<char>|
                        {
                            &&& #[trigger] json_schema_outcome(text@, Some(fault))
                            &&& e == ReloadFault::Parse(refused("schema"@, file.path@, fault))
                        },
                }
            },
        },
    }
}

/// The text of a schema, or what is wrong.
pub open spec fn schema_result(r: Result<Option<cedar_policy::Schema>, ReloadError>) -> Result<
    Option<SchemaText>,
    ReloadFault,
> {
    match r {
        Ok(Some(schema)) => Ok(Some(schema_text(schema))),
        Ok(None) => Ok(None),
        Err(e) => Err(e@),
    }
}

/// Reads the schema file, where there is one.
pub fn parse_schema(file: &Option<TextFile>) -> (r: Result<
    Option<cedar_policy::Schema>,
    ReloadError,
>)
    ensures
        schema_can_be(*file, schema_result(r)),
{
    let file = match file {
        None => return Ok(None),
        Some(file) => file,
    };
    let text = match &file.contents {
        Ok(text) => text,
        Err(error) => {
            return Err(ReloadError::Io { path: file.path.clone(), error: error.clone() });
        },
    };
    match read_cedar_schema(text.as_str()) {
        Some(schema) => Ok(Some(schema)),
        None => match read_json_schema(text.as_str()) {
            Ok(schema) => Ok(Some(schema)),
            Err(fault) => Err(
                ReloadError::Parse(refusal("schema", file.path.as_str(), fault.as_str())),
            ),
        },
    }
}

/// Tells whether this can become of the entities file under a schema. Without a file the store is
/// empty.
pub open spec fn entities_can_be(
    file: Option<TextFile>,
    schema: Option<SchemaText>,
    r: Result<EntitiesText, ReloadFault>,
) -> bool {
    match file {
        None => r == Ok::<EntitiesText, ReloadFault>(EntitiesText::Empty),
        Some(file) => match file.contents {
            Err(error) => r == Err::<EntitiesText, ReloadFault>(
                ReloadFault::Io { path: file.path@, error: error@ },
            ),
            Ok(text) => match r {
                Ok(entities) => {
                    &&& entities_outcome(text@, schema, None)
                    &&& entities == (EntitiesText::Json { text: text@, schema })
                },
                Err(e) => exists|fault: Seq<char>|
                    {
                        &&& #[trigger] entities_outcome(text@, schema, Some(fault))
                        &&& e == ReloadFault::Parse(refused("entities"@, file.path@, fault))
                    },
            },
        },
    }
}

/// The text of an entity store, or what is wrong.
pub open spec fn entities_result(r: Result<cedar_policy::Entities, ReloadError>) -> Result<
    EntitiesText,
    ReloadFault,
> {
    match r {
        Ok(entities) => Ok(entities_text(entities)),
        Err(e) => Err(e@),
    }
}

/// Reads the entities file, where there is one.
pub fn parse_entities(
    file: &Option<TextFile>,
    schema: Option<&cedar_policy::Schema>,
) -> (r: Result<cedar_policy::Entities, ReloadError>)
    ensures
        entities_can_be(*file, schema_given(schema), entities_result(r)),
{
    let file = match file {
        None => return Ok(empty_entities()),
        Some(file) => file,
    };
    let text = match &file.contents {
        Ok(text) => text,
        Err(error) => {
            return Err(ReloadError::Io { path: file.path.clone(), error: error.clone() });
        },
    };
    match read_entities(text.as_str(), schema) {
        Ok(entities) => Ok(entities),
        Err(fault) => Err(
            ReloadError::Parse(refusal("entities", file.path.as_str(), fault.as_str())),
        ),
    }
}

/// Tells whether this can become of the files of a bundle. The schema comes first, since the
/// entities and the policies are read under it; the first fault ends the load.
pub open spec fn bundle_can_be(
    files: Result<Vec<PolicyFile>, ReloadError>,
    schema_file: Option<TextFile>,
    entities_file: Option<TextFile>,
    r: Result<BundleText, ReloadFault>,
) -> bool {
    exists|
        schema: Result<Option<SchemaText>, ReloadFault>,
        entities: Result<EntitiesText, ReloadFault>,
        policies: Result<Seq<char>, ReloadFault>,
    |
        {
            &&& schema_can_be(schema_file, schema)
            &&& schema is Ok ==> entities_can_be(entities_file, schema->Ok_0, entities)
            &&& schema is Ok && entities is Ok ==> policies_can_be(
                listed_text(files),
                schema->Ok_0,
                policies,
            )
            &&& r == #[trigger] assembled(schema, entities, policies)
        }
}

/// The bundle of three parts, or what is wrong with the first part that is not there.
pub open spec fn assembled(
    schema: Result<Option<SchemaText>, ReloadFault>,
    entities: Result<EntitiesText, ReloadFault>,
    policies: Result<Seq<char>, ReloadFault>,
) -> Result<BundleText, ReloadFault> {
    match schema {
        Err(fault) => Err(fault),
        Ok(schema) => match entities {
            Err(fault) => Err(fault),
            Ok(entities) => match policies {
                Err(fault) => Err(fault),
                Ok(policies) => Ok(BundleText { policies, schema, entities }),
            },
        },
    }
}

/// The texts of a bundle, or what is wrong.
pub open spec fn bundle_result(r: Result<CompiledBundle, ReloadError>) -> Result<
    BundleText,
    ReloadFault,
> {
    match r {
        Ok(bundle) => Ok(bundle@),
        Err(e) => Err(e@),
    }
}

/// Makes a bundle of the files of policies, the schema file and the entities file.
pub fn parse_full_bundle(
    files: Result<Vec<PolicyFile>, ReloadError>,
    schema_file: &Option<TextFile>,
    entities_file: &Option<TextFile>,
) -> (r: Result<CompiledBundle, ReloadError>)
    ensures
        bundle_can_be(files, *schema_file, *entities_file, bundle_result(r)),
{
    let schema = parse_schema(schema_file);
    let ghost schema_text = schema_result(schema);
    let schema = match schema {
        Ok(schema) => schema,
        Err(e) => {
            let ghost entities_text = Err::<EntitiesText, ReloadFault>(e@);
            let ghost policies_text = Err::<Seq<char>, ReloadFault>(e@);
            assert(assembled(schema_text, entities_text, policies_text) == Err::<
                BundleText,
                ReloadFault,
            >(e@));
            return Err(e);
        },
    };
    let entities = parse_entities(entities_file, schema.as_ref());
    let ghost entities_text = entities_result(entities);
    let entities = match entities {
        Ok(entities) => entities,
        Err(e) => {
            let ghost policies_text = Err::<Seq<char>, ReloadFault>(e@);
            assert(assembled(schema_text, entities_text, policies_text) == Err::<
                BundleText,
                ReloadFault,
            >(e@));
            return Err(e);
        },
    };
    let compiled = parse_bundle_with_schema(files, schema.as_ref());
    let ghost policies_text = policies_result(compiled);
    assert(policies_can_be(listed_text(files), schema_text->Ok_0, policies_text));
    match compiled {
        Ok(compiled) => {
            proof {
                use_type_invariant(&compiled);
            }
            let bundle = CompiledBundle {
                policy_set: compiled.policy_set,
                forbid_ids: compiled.forbid_ids,
                schema,
                entities,
            };
            assert(assembled(schema_text, entities_text, policies_text) == Ok::<
                BundleText,
                ReloadFault,
            >(bundle@));
            Ok(bundle)
        },
        Err(e) => {
            assert(assembled(schema_text, entities_text, policies_text) == Err::<
                BundleText,
                ReloadFault,
            >(e@));
            Err(e)
        },
    }
}

/// Every file that the configuration names is a place that the bundle is loaded from, so that a
/// change in any of them is seen.
pub proof fn law_every_input_is_a_place(config: CedarConfig)
    ensures
        configured_places(config).contains(
            Place::Directory { root: config.policy_dir@, extension: Some("cedar"@) },
        ),
        config.schema_path matches Some(path) ==> configured_places(config).contains(
            Place::File(path@),
        ),
        config.entities_path matches Some(path) ==> configured_places(config).contains(
            Place::File(path@),
        ),
{
    let places = configured_places(config);
    assert(places[0] == Place::Directory {
        root: config.policy_dir@,
        extension: Some("cedar"@),
    });
    if let Some(path) = config.schema_path {
        assert(places[1] == Place::File(path@));
    }
    if let Some(path) = config.entities_path {
        assert(places[places.len() - 1] == Place::File(path@));
    }
}

proof fn lemma_every_policy_file_is_read(files: Seq<PolicyFile>, i: int)
    requires
        combined_text(files) is Ok,
        0 <= i < files.len(),
    ensures
        policy_text(files[i]) is Ok,
    decreases files.len(),
{
    if i < files.len() - 1 {
        lemma_every_policy_file_is_read(files.drop_last(), i);
    }
}

/// A bundle is loaded only if every file could be read, and it holds what the files hold: the text
/// of all policies, the schema if there is a schema file, the entities under that schema if there
/// is an entities file.
pub proof fn law_bundle_holds_every_file(
    files: Result<Vec<PolicyFile>, ReloadError>,
    schema_file: Option<TextFile>,
    entities_file: Option<TextFile>,
    bundle: BundleText,
)
    requires
        bundle_can_be(
            files,
            schema_file,
            entities_file,
            Ok::<BundleText, ReloadFault>(bundle),
        ),
    ensures
        files matches Ok(listed) && combined_text(listed@) == Ok::<Seq<char>, ReloadFault>(
            bundle.policies,
        ) && forall|i: int| 0 <= i < listed@.len() ==> policy_text(#[trigger] listed@[i]) is Ok,
        match schema_file {
            None => bundle.schema is None,
            Some(file) => file.contents matches Ok(text) && bundle.schema == Some(
                if is_cedar_schema(text@) {
                    SchemaText::Cedar(text@)
                } else {
                    SchemaText::Json(text@)
                },
            ),
        },
        match entities_file {
            None => bundle.entities is Empty,
            Some(file) => file.contents matches Ok(text) && bundle.entities == (
            EntitiesText::Json { text: text@, schema: bundle.schema }),
        },
{
    if let Ok(listed) = files {
        assert forall|i: int| 0 <= i < listed@.len() && combined_text(listed@) is Ok implies
            policy_text(#[trigger] listed@[i]) is Ok by {
            lemma_every_policy_file_is_read(listed@, i);
        }
    }
}

/// Under a schema a bundle is loaded only if validation of its policies found no error.
pub proof fn law_policies_are_validated(
    files: Result<Vec<PolicyFile>, ReloadError>,
    schema_file: Option<TextFile>,
    entities_file: Option<TextFile>,
    bundle: BundleText,
)
    requires
        bundle_can_be(
            files,
            schema_file,
            entities_file,
            Ok::<BundleText, ReloadFault>(bundle),
        ),
        bundle.schema is Some,
    ensures
        validation_outcome(bundle.policies, bundle.schema->0, Seq::empty()),
        policies_fault(bundle.policies) is None,
{
    assert forall|errors: Seq<Seq<char>>|
        errors.len() == 0 && #[trigger] validation_outcome(
            bundle.policies,
            bundle.schema->0,
            errors,
        ) implies validation_outcome(bundle.policies, bundle.schema->0, Seq::empty()) by {
        assert(errors == Seq::<Seq<char>>::empty());
    }
}

/// Tells whether a file of policies could be read and is text.
pub open spec fn is_readable(file: PolicyFile) -> bool {
    file.contents matches Ok(bytes) && vstd::utf8::valid_utf8(bytes@)
}

/// The policies are aggregated from every file: what the files hold, one after the other, each with a
/// line end behind it.
pub proof fn law_policies_of_every_file(files: Seq<PolicyFile>)
    requires
        forall|i: int| 0 <= i < files.len() ==> is_readable(#[trigger] files[i]),
    ensures
        combined_text(files) == Ok::<Seq<char>, ReloadFault>(
            files.map_values(
                |file: PolicyFile| vstd::utf8::decode_utf8(file.contents->Ok_0@).push('\n'),
            ).flatten(),
        ),
    decreases files.len(),
{
    let lines = |file: PolicyFile| vstd::utf8::decode_utf8(file.contents->Ok_0@).push('\n');
    if files.len() > 0 {
        let before = files.drop_last();
        assert forall|i: int| 0 <= i < before.len() implies is_readable(#[trigger] before[i]) by {
            assert(before[i] == files[i]);
        }
        law_policies_of_every_file(before);
        assert(is_readable(files[files.len() - 1]));
        let last = lines(files.last());
        assert(files.map_values(lines) == before.map_values(lines).push(last));
        before.map_values(lines).lemma_flatten_push(last);
        let text = vstd::utf8::decode_utf8(files.last().contents->Ok_0@);
        let start = before.map_values(lines).flatten();
        assert((start + text).push('\n') == start + text.push('\n'));
    }
}

/// Two lists of files are aggregated to the text of the first with the text of the second behind it,
/// whatever the files are called. A list of one file is aggregated to its text and a line end.
pub proof fn law_files_are_put_one_after_the_other(
    a: Seq<PolicyFile>,
    b: Seq<PolicyFile>,
    file: PolicyFile,
)
    ensures
        combined_text(a) is Ok && combined_text(b) is Ok ==> combined_text(a + b) == Ok::<
            Seq<char>,
            ReloadFault,
        >(combined_text(a)->Ok_0 + combined_text(b)->Ok_0),
        file.contents matches Ok(bytes) && vstd::utf8::valid_utf8(bytes@) ==> combined_text(
            seq![file],
        ) == Ok::<Seq<char>, ReloadFault>(
            vstd::utf8::decode_utf8(file.contents->Ok_0@).push('\n'),
        ),
    decreases b.len(),
{
    let one = seq![file];
    assert(one.drop_last() == Seq::<PolicyFile>::empty());
    assert(combined_text(Seq::<PolicyFile>::empty()) == Ok::<Seq<char>, ReloadFault>(Seq::empty()));
    if is_readable(file) {
        let text = vstd::utf8::decode_utf8(file.contents->Ok_0@);
        assert((Seq::<char>::empty() + text).push('\n') == text.push('\n'));
    }
    if b.len() > 0 {
        let before = b.drop_last();
        assert((a + b).drop_last() == a + before);
        assert((a + b).last() == b.last());
        law_files_are_put_one_after_the_other(a, before, file);
        if combined_text(a) is Ok && combined_text(b) is Ok {
            let x = combined_text(a)->Ok_0;
            let y = combined_text(before)->Ok_0;
            let z = policy_text(b.last())->Ok_0;
            assert((x + y + z).push('\n') == x + (y + z).push('\n'));
        }
    } else {
        assert(a + b == a);
        if combined_text(a) is Ok {
            assert(combined_text(a)->Ok_0 + Seq::<char>::empty() == combined_text(a)->Ok_0);
        }
    }
}

/// The first file that cannot be read, or is no text, ends the aggregation, and is named.
pub proof fn law_first_faulty_file(files: Seq<PolicyFile>, i: int)
    requires
        0 <= i < files.len(),
        forall|j: int| 0 <= j < i ==> is_readable(#[trigger] files[j]),
        !is_readable(files[i]),
    ensures
        combined_text(files) == Err::<Seq<char>, ReloadFault>(
            match files[i].contents {
                Err(error) => ReloadFault::Io { path: files[i].path@, error: error@ },
                Ok(bytes) => ReloadFault::Parse(
                    "non-utf8 in "@ + files[i].path@ + ": "@ + utf8_fault(bytes@),
                ),
            },
        ),
{
    let before = files.take(i);
    assert forall|j: int| 0 <= j < before.len() implies is_readable(#[trigger] before[j]) by {
        assert(before[j] == files[j]);
    }
    law_policies_of_every_file(before);
    assert(files.take(i + 1).drop_last() == before);
    assert(files.take(i + 1).last() == files[i]);
    lemma_fault_stays(files, i + 1);
}

proof fn lemma_faulty_file(files: Seq<PolicyFile>) -> (i: int)
    requires
        combined_text(files) is Err,
    ensures
        0 <= i < files.len(),
        forall|j: int| 0 <= j < i ==> is_readable(#[trigger] files[j]),
        !is_readable(files[i]),
    decreases files.len(),
{
    if combined_text(files.drop_last()) is Err {
        let i = lemma_faulty_file(files.drop_last());
        assert forall|j: int| 0 <= j < i implies is_readable(#[trigger] files[j]) by {
            assert(files.drop_last()[j] == files[j]);
        }
        assert(files.drop_last()[i] == files[i]);
        i
    } else {
        assert forall|j: int| 0 <= j < files.len() - 1 implies is_readable(
            #[trigger] files[j],
        ) by {
            lemma_every_policy_file_is_read(files.drop_last(), j);
            assert(files.drop_last()[j] == files[j]);
        }
        files.len() - 1
    }
}

/// The places of a bundle: the directory alone, or the directory with the files that are configured,
/// the schema before the entities.
pub proof fn law_places_of_a_configuration(config: CedarConfig)
    ensures
        configured_places(config) == ({
            let directory = Place::Directory {
                root: config.policy_dir@,
                extension: Some("cedar"@),
            };
            match (config.schema_path, config.entities_path) {
                (None, None) => seq![directory],
                (Some(schema), None) => seq![directory, Place::File(schema@)],
                (None, Some(entities)) => seq![directory, Place::File(entities@)],
                (Some(schema), Some(entities)) => seq![
                    directory,
                    Place::File(schema@),
                    Place::File(entities@),
                ],
            }
        }),
{
    let directory = Place::Directory { root: config.policy_dir@, extension: Some("cedar"@) };
    match (config.schema_path, config.entities_path) {
        (None, None) => {
            assert(configured_places(config) == seq![directory]);
        },
        (Some(schema), None) => {
            assert(configured_places(config) == seq![directory, Place::File(schema@)]);
        },
        (None, Some(entities)) => {
            assert(configured_places(config) == seq![directory, Place::File(entities@)]);
        },
        (Some(schema), Some(entities)) => {
            assert(configured_places(config) == seq![
                directory,
                Place::File(schema@),
                Place::File(entities@),
            ]);
        },
    }
}

/// A source holds the places that it is made of, and an error what it carries.
pub proof fn law_sources_hold_their_parts(
    part: SourcePart,
    source: BundleSource,
    error: ReloadError,
    i: int,
)
    ensures
        part matches SourcePart::File(path) ==> part@ == Place::File(path@),
        part matches SourcePart::Directory { root, extension: Some(text) } ==> part@ == (
        Place::Directory { root: root@, extension: Some(text@) }),
        part matches SourcePart::Directory { root, extension: None } ==> part@ == (
        Place::Directory { root: root@, extension: None }),
        source matches BundleSource::Single(one) ==> source@ == Places::Single(one@),
        source matches BundleSource::Composite(parts) ==> source@ is Composite
            && source@->Composite_0.len() == parts@.len() && (0 <= i < parts@.len()
            ==> source@->Composite_0[i] == parts@[i]@),
        error matches ReloadError::Io { path, error: cause } ==> error@ == (ReloadFault::Io {
            path: path@,
            error: cause@,
        }),
        error matches ReloadError::Parse(text) ==> error@ == ReloadFault::Parse(text@),
{
}

/// What is told of a load is what came of it: an accepted part by its text, a refusal by its fault.
pub proof fn law_results_hold_what_came(
    text: Result<String, ReloadError>,
    bundle: Result<CompiledBundle, ReloadError>,
    schema: Result<Option<cedar_policy::Schema>, ReloadError>,
    entities: Result<cedar_policy::Entities, ReloadError>,
)
    ensures
        match text {
            Ok(t) => text_result(text) == Ok::<Seq<char>, ReloadFault>(t@),
            Err(e) => text_result(text) == Err::<Seq<char>, ReloadFault>(e@),
        },
        match bundle {
            Ok(b) => {
                &&& bundle_result(bundle) == Ok::<BundleText, ReloadFault>(b@)
                &&& policies_result(bundle) == Ok::<Seq<char>, ReloadFault>(b@.policies)
            },
            Err(e) => {
                &&& bundle_result(bundle) == Err::<BundleText, ReloadFault>(e@)
                &&& policies_result(bundle) == Err::<Seq<char>, ReloadFault>(e@)
            },
        },
        match schema {
            Ok(Some(s)) => schema_result(schema) == Ok::<Option<SchemaText>, ReloadFault>(
                Some(schema_text(s)),
            ),
            Ok(None) => schema_result(schema) == Ok::<Option<SchemaText>, ReloadFault>(None),
            Err(e) => schema_result(schema) == Err::<Option<SchemaText>, ReloadFault>(e@),
        },
        match entities {
            Ok(e) => entities_result(entities) == Ok::<EntitiesText, ReloadFault>(
                entities_text(e),
            ),
            Err(e) => entities_result(entities) == Err::<EntitiesText, ReloadFault>(e@),
        },
{
}

/// Tells whether a policy of this id is a forbid, by the list: some policy of the list has the id and
/// forbids.
pub proof fn law_forbids_by_the_list(policies: Seq<PolicyFacts>, id: Seq<char>)
    requires
        crate::cedar::ids_distinct(policies),
    ensures
        is_forbid(policies, id) <==> exists|i: int|
            0 <= i < policies.len() && (#[trigger] policies[i]).id == id && policies[i].forbids,
{
    if is_forbid(policies, id) {
        let i = lemma_named_policy_is_listed(policies, id);
        assert(policies[i].id == id && policies[i].forbids);
    }
    if exists|i: int|
        0 <= i < policies.len() && (#[trigger] policies[i]).id == id && policies[i].forbids {
        let i = choose|i: int|
            0 <= i < policies.len() && (#[trigger] policies[i]).id == id && policies[i].forbids;
        lemma_policy_named(policies, i);
    }
}

/// What is known of a listed policy that settled a request: its own effect and annotations, under its
/// id as it is shown.
pub proof fn law_matched_policy_is_the_listed_one(policies: Seq<PolicyFacts>, i: int)
    requires
        crate::cedar::ids_distinct(policies),
        0 <= i < policies.len(),
    ensures
        matched_policy(policies, policies[i].id).id == policy_id_shown(policies[i].id),
        matched_policy(policies, policies[i].id).forbids == policies[i].forbids,
        matched_policy(policies, policies[i].id).annotations == policies[i].annotations,
{
    lemma_policy_named(policies, i);
}

/// Tells whether a schema file, where there is one, reads as this schema: in Cedar syntax where it is
/// that, or else in JSON syntax.
pub open spec fn schema_reads(file: Option<TextFile>, schema: Option<SchemaText>) -> bool {
    match file {
        None => schema is None,
        Some(file) => file.contents matches Ok(text) && (if is_cedar_schema(text@) {
            schema == Some(SchemaText::Cedar(text@))
        } else {
            json_schema_outcome(text@, None) && schema == Some(SchemaText::Json(text@))
        }),
    }
}

/// Tells whether an entities file, where there is one, reads as this store under a schema.
pub open spec fn entities_read(
    file: Option<TextFile>,
    schema: Option<SchemaText>,
    entities: EntitiesText,
) -> bool {
    match file {
        None => entities is Empty,
        Some(file) => file.contents matches Ok(text) && entities_outcome(text@, schema, None)
            && entities == (EntitiesText::Json { text: text@, schema }),
    }
}

/// A bundle that is loaded holds the schema that the schema file reads as, the entities that the
/// entities file reads as under it, and the policies of every file, which parse and, where there is a
/// schema, pass its validation.
pub proof fn law_loaded_bundle(
    files: Result<Vec<PolicyFile>, ReloadError>,
    schema_file: Option<TextFile>,
    entities_file: Option<TextFile>,
    bundle: BundleText,
)
    requires
        bundle_can_be(files, schema_file, entities_file, Ok::<BundleText, ReloadFault>(bundle)),
    ensures
        schema_reads(schema_file, bundle.schema),
        entities_read(entities_file, bundle.schema, bundle.entities),
        files matches Ok(listed) && (forall|i: int|
            0 <= i < listed@.len() ==> is_readable(#[trigger] listed@[i])) && bundle.policies
            == listed@.map_values(
            |file: PolicyFile| vstd::utf8::decode_utf8(file.contents->Ok_0@).push('\n'),
        ).flatten(),
        policies_fault(bundle.policies) is None,
        bundle.schema matches Some(schema) ==> validation_outcome(
            bundle.policies,
            schema,
            Seq::empty(),
        ),
{
    law_bundle_holds_every_file(files, schema_file, entities_file, bundle);
    if bundle.schema is Some {
        law_policies_are_validated(files, schema_file, entities_file, bundle);
    }
    let listed = files->Ok_0;
    assert forall|i: int| 0 <= i < listed@.len() implies is_readable(#[trigger] listed@[i]) by {
        assert(policy_text(listed@[i]) is Ok);
    }
    law_policies_of_every_file(listed@);
}

/// Why a load is refused by its schema file: it could not be read, or Cedar refuses it in both
/// syntaxes.
pub open spec fn schema_refused(file: Option<TextFile>, fault: ReloadFault) -> bool {
    file matches Some(file) && match file.contents {
        Err(error) => fault == (ReloadFault::Io { path: file.path@, error: error@ }),
        Ok(text) => !is_cedar_schema(text@) && exists|m: Seq<char>| #[trigger]
            json_schema_outcome(text@, Some(m)) && fault == ReloadFault::Parse(
                "schema parse '"@ + file.path@ + "' failed: "@ + m,
            ),
    }
}

/// Why a load is refused by its entities file: it could not be read, or Cedar refuses it.
pub open spec fn entities_refused(
    file: Option<TextFile>,
    schema: Option<SchemaText>,
    fault: ReloadFault,
) -> bool {
    file matches Some(file) && match file.contents {
        Err(error) => fault == (ReloadFault::Io { path: file.path@, error: error@ }),
        Ok(text) => exists|m: Seq<char>| #[trigger]
            entities_outcome(text@, schema, Some(m)) && fault == ReloadFault::Parse(
                "entities parse '"@ + file.path@ + "' failed: "@ + m,
            ),
    }
}

/// Why a load is refused by its policies: the files could not be listed, one of them could not be
/// read or is no text, their text does not parse, or validation finds errors.
pub open spec fn policies_refused(
    files: Result<Vec<PolicyFile>, ReloadError>,
    schema: Option<SchemaText>,
    fault: ReloadFault,
) -> bool {
    match files {
        Err(e) => fault == e@,
        Ok(listed) => {
            let text = listed@.map_values(
                |file: PolicyFile| vstd::utf8::decode_utf8(file.contents->Ok_0@).push('\n'),
            ).flatten();
            ||| exists|i: int|
                {
                    &&& 0 <= i < listed@.len()
                    &&& !is_readable(#[trigger] listed@[i])
                    &&& forall|j: int| 0 <= j < i ==> is_readable(#[trigger] listed@[j])
                    &&& fault == match listed@[i].contents {
                        Err(error) => ReloadFault::Io { path: listed@[i].path@, error: error@ },
                        Ok(bytes) => ReloadFault::Parse(
                            "non-utf8 in "@ + listed@[i].path@ + ": "@ + utf8_fault(bytes@),
                        ),
                    }
                }
            ||| (forall|i: int| 0 <= i < listed@.len() ==> is_readable(#[trigger] listed@[i])) && (
            match policies_fault(text) {
                Some(m) => fault == ReloadFault::Parse("parsing combined PolicySet: "@ + m),
                None => schema matches Some(s) && exists|errors: Seq<Seq<char>>| #[trigger]
                    validation_outcome(text, s, errors) && errors.len() > 0 && fault
                        == ReloadFault::Parse(
                        "schema validation failed: "@ + joined(errors, "; "@),
                    ),
            })
        },
    }
}

/// A load is refused for one of three reasons, which come in this order: the schema file, the entities
/// file under the schema, the policies under the schema.
pub proof fn law_refused_load(
    files: Result<Vec<PolicyFile>, ReloadError>,
    schema_file: Option<TextFile>,
    entities_file: Option<TextFile>,
    fault: ReloadFault,
)
    requires
        bundle_can_be(files, schema_file, entities_file, Err::<BundleText, ReloadFault>(fault)),
    ensures
        schema_refused(schema_file, fault) || exists|s: Option<SchemaText>|
            {
                &&& #[trigger] schema_reads(schema_file, s)
                &&& entities_refused(entities_file, s, fault) || exists|e: EntitiesText|
                    {
                        &&& #[trigger] entities_read(entities_file, s, e)
                        &&& policies_refused(files, s, fault)
                    }
            },
{
    let (schema, entities, policies) = choose|
        schema: Result<Option<SchemaText>, ReloadFault>,
        entities: Result<EntitiesText, ReloadFault>,
        policies: Result<Seq<char>, ReloadFault>,
    |
        {
            &&& schema_can_be(schema_file, schema)
            &&& schema is Ok ==> entities_can_be(entities_file, schema->Ok_0, entities)
            &&& schema is Ok && entities is Ok ==> policies_can_be(
                listed_text(files),
                schema->Ok_0,
                policies,
            )
            &&& Err::<BundleText, ReloadFault>(fault) == #[trigger] assembled(
                schema,
                entities,
                policies,
            )
        };
    if schema is Ok {
        let s = schema->Ok_0;
        assert(schema_reads(schema_file, s));
        if entities is Ok {
            let e = entities->Ok_0;
            assert(entities_read(entities_file, s, e));
            if let Ok(listed) = files {
                if combined_text(listed@) is Err {
                    let i = lemma_faulty_file(listed@);
                    law_first_faulty_file(listed@, i);
                    assert(!is_readable(listed@[i]));
                } else {
                    assert forall|i: int| 0 <= i < listed@.len() implies is_readable(
                        #[trigger] listed@[i],
                    ) by {
                        lemma_every_policy_file_is_read(listed@, i);
                    }
                    law_policies_of_every_file(listed@);
                }
            }
            assert(policies_refused(files, s, fault));
        } else {
            assert(entities_refused(entities_file, s, fault)) by {
                reveal_strlit("entities");
                reveal_strlit(" parse '");
                reveal_strlit("entities parse '");
                assert("entities"@ + " parse '"@ == "entities parse '"@);
            }
        }
    } else {
        reveal_strlit("schema");
        reveal_strlit(" parse '");
        reveal_strlit("schema parse '");
        assert("schema"@ + " parse '"@ == "schema parse '"@);
        assert(schema_refused(schema_file, fault));
    }
}

/// A load without a schema file and an entities file has one outcome: the bundle of the policies, or
/// the first fault of the files or of their text.
pub proof fn law_load_of_policies_alone(
    files: Result<Vec<PolicyFile>, ReloadError>,
    r: Result<BundleText, ReloadFault>,
)
    requires
        bundle_can_be(files, None, None, r),
    ensures
        match files {
            Err(e) => r == Err::<BundleText, ReloadFault>(e@),
            Ok(listed) => {
                let text = listed@.map_values(
                    |file: PolicyFile| vstd::utf8::decode_utf8(file.contents->Ok_0@).push('\n'),
                ).flatten();
                (forall|i: int| 0 <= i < listed@.len() ==> is_readable(#[trigger] listed@[i]))
                    ==> r == match policies_fault(text) {
                    Some(m) => Err::<BundleText, ReloadFault>(
                        ReloadFault::Parse("parsing combined PolicySet: "@ + m),
                    ),
                    None => Ok(
                        BundleText { policies: text, schema: None, entities: EntitiesText::Empty },
                    ),
                }
            },
        },
{
    if let Ok(listed) = files {
        if forall|i: int| 0 <= i < listed@.len() ==> is_readable(#[trigger] listed@[i]) {
            law_policies_of_every_file(listed@);
        }
    }
}

} // verus!
