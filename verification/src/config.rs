//! The operator's configuration of the policy engine, and what makes it acceptable.

use vstd::prelude::*;
use vstd::string::*;

use crate::text::{is_blank, is_space, law_trimming, push_decimal, same_text};

verus! {

/// The configuration of the policy engine.
#[derive(Debug, Clone)]
pub struct CedarConfig {
    /// Directory that holds the `.cedar` policy files. It is walked recursively, and every
    /// `.cedar` file is parsed into one Cedar policy set.
    pub policy_dir: String,
    /// How an evaluation envelope maps to a typed Cedar request.
    pub translation: TranslationConfig,
    /// What a Cedar default-deny is turned into.
    pub evaluation: EvaluationConfig,
    /// The watcher that looks for changed policies.
    pub reload: ReloadConfig,
    /// Path of a Cedar schema, in Cedar or in JSON syntax. Policies, entities and requests are
    /// checked against it.
    pub schema_path: Option<String>,
    /// Path of a Cedar entities JSON file. Without it the entity store is empty.
    pub entities_path: Option<String>,
    /// Whether the request input becomes the Cedar context. Without it the context is empty.
    pub include_input_as_context: bool,
}

/// The watcher that looks for changed policies.
#[derive(Debug, Clone, PartialEq, Eq, Structural)]
pub struct ReloadConfig {
    pub enabled: bool,
    pub check_interval_sec: u64,
}

impl Default for ReloadConfig {
    fn default() -> (r: Self)
        ensures
            !r.enabled,
            r.check_interval_sec == 60,
    {
        ReloadConfig { enabled: false, check_interval_sec: default_check_interval_sec() }
    }
}

/// The number of seconds between two looks at the policies, where none is configured.
pub fn default_check_interval_sec() -> (r: u64)
    ensures
        r == 60,
{
    60
}

/// How an evaluation envelope maps to a typed Cedar request.
#[derive(Debug, Clone)]
pub struct TranslationConfig {
    /// Cedar entity type of the principal, such as `User` or `Acme::Identity::User`.
    pub principal_type: String,
    /// Cedar entity type of the action, such as `Action` or `Acme::Identity::Action`.
    pub action_namespace: String,
    /// The resource type for each decision point, with an optional `*` entry for those that are
    /// not listed.
    pub resource_types: Vec<ResourceType>,
    /// The principal id of a request without a subject.
    pub anonymous_principal_id: String,
}

/// The resource type for a decision point.
#[derive(Debug, Clone)]
pub struct ResourceType {
    /// The decision point, or `*` for those that are not listed.
    pub decision_point: String,
    /// Cedar entity type, such as `Tool` or `Document`.
    pub resource_type: String,
    /// JSON pointer (RFC 6901) to the resource id in the request input. Where it is empty the id
    /// is `unspecified`, where it points nowhere the id is `unknown`.
    pub resource_id_path: String,
}

/// The principal id of a request without a subject, where none is configured.
pub fn default_anonymous_id() -> (r: String)
    ensures
        r@ == "anonymous"@,
{
    "anonymous".to_owned()
}

/// What a Cedar default-deny is turned into.
#[derive(Debug, Clone, PartialEq, Eq, Structural)]
pub struct EvaluationConfig {
    pub on_default_deny: DefaultDenyMode,
}

impl Default for EvaluationConfig {
    fn default() -> (r: Self)
        ensures
            r.on_default_deny == DefaultDenyMode::NotApplicable,
    {
        EvaluationConfig { on_default_deny: default_on_default_deny() }
    }
}

/// What a Cedar default-deny is turned into, where nothing is configured.
pub fn default_on_default_deny() -> (r: DefaultDenyMode)
    ensures
        r == DefaultDenyMode::NotApplicable,
{
    DefaultDenyMode::NotApplicable
}

/// What a Cedar default-deny is turned into.
#[derive(Debug, Clone, Copy, PartialEq, Eq, Structural)]
pub enum DefaultDenyMode {
    /// The engine has no opinion, and another one may be asked.
    NotApplicable,
    /// The request is denied.
    Deny,
}

/// What is wrong with a configuration.
#[derive(Debug)]
pub enum ConfigError {
    /// The configuration text is no JSON of the right shape, as the decoder puts it.
    InvalidJson(String),
    EmptyPolicyDir,
    EmptyPrincipalType,
    EmptyActionNamespace,
    EmptyResourceTypes,
    DuplicateDecisionPoint { decision_point: String },
    EmptyResourceType { index: usize, decision_point: String },
    InvalidCheckInterval,
    EmptySchemaPath,
    EmptyEntitiesPath,
}

/// What is wrong with a configuration, as a mathematical value.
pub enum ConfigFault {
    InvalidJson(Seq<char>),
    EmptyPolicyDir,
    EmptyPrincipalType,
    EmptyActionNamespace,
    EmptyResourceTypes,
    DuplicateDecisionPoint { decision_point: Seq<char> },
    EmptyResourceType { index: int, decision_point: Seq<char> },
    InvalidCheckInterval,
    EmptySchemaPath,
    EmptyEntitiesPath,
}

impl View for ConfigError {
    type V = ConfigFault;

    open spec fn view(&self) -> ConfigFault {
        match *self {
            ConfigError::InvalidJson(text) => ConfigFault::InvalidJson(text@),
            ConfigError::EmptyPolicyDir => ConfigFault::EmptyPolicyDir,
            ConfigError::EmptyPrincipalType => ConfigFault::EmptyPrincipalType,
            ConfigError::EmptyActionNamespace => ConfigFault::EmptyActionNamespace,
            ConfigError::EmptyResourceTypes => ConfigFault::EmptyResourceTypes,
            ConfigError::DuplicateDecisionPoint { decision_point } => {
                ConfigFault::DuplicateDecisionPoint { decision_point: decision_point@ }
            },
            ConfigError::EmptyResourceType { index, decision_point } => {
                ConfigFault::EmptyResourceType {
                    index: index as int,
                    decision_point: decision_point@,
                }
            },
            ConfigError::InvalidCheckInterval => ConfigFault::InvalidCheckInterval,
            ConfigError::EmptySchemaPath => ConfigFault::EmptySchemaPath,
            ConfigError::EmptyEntitiesPath => ConfigFault::EmptyEntitiesPath,
        }
    }
}

impl ConfigFault {
    /// The message that tells the operator what is wrong.
    pub open spec fn message(self) -> Seq<char> {
        match self {
            ConfigFault::InvalidJson(text) => "invalid policy.cedar config JSON: "@ + text,
            ConfigFault::EmptyPolicyDir => "policy.cedar: policy_dir is empty"@,
            ConfigFault::EmptyPrincipalType => {
                "policy.cedar: translation.principal_type is empty"@
            },
            ConfigFault::EmptyActionNamespace => {
                "policy.cedar: translation.action_namespace is empty"@
            },
            ConfigFault::EmptyResourceTypes => {
                "policy.cedar: translation.resource_types must be non-empty"@
            },
            ConfigFault::DuplicateDecisionPoint { decision_point } => {
                "policy.cedar: duplicate decision_point `"@ + decision_point
                    + "` in resource_types — operator must declare each decision_point at most once (with optional `*` catch-all)"@
            },
            ConfigFault::EmptyResourceType { index, decision_point } => {
                "policy.cedar: resource_types["@ + crate::text::decimal(index as nat)
                    + "] (decision_point=`"@ + decision_point + "`): resource_type is empty"@
            },
            ConfigFault::InvalidCheckInterval => {
                "policy.cedar: reload.check_interval_sec must be > 0 when reload.enabled = true"@
            },
            ConfigFault::EmptySchemaPath => "policy.cedar: schema_path is set but empty"@,
            ConfigFault::EmptyEntitiesPath => "policy.cedar: entities_path is set but empty"@,
        }
    }
}

impl ConfigError {
    /// The message that tells the operator what is wrong.
    pub fn message(&self) -> (r: String)
        ensures
            r@ == self@.message(),
    {
        match self {
            ConfigError::InvalidJson(text) => {
                let mut out = "invalid policy.cedar config JSON: ".to_owned();
                out.append(text.as_str());
                out
            },
            ConfigError::EmptyPolicyDir => "policy.cedar: policy_dir is empty".to_owned(),
            ConfigError::EmptyPrincipalType => {
                "policy.cedar: translation.principal_type is empty".to_owned()
            },
            ConfigError::EmptyActionNamespace => {
                "policy.cedar: translation.action_namespace is empty".to_owned()
            },
            ConfigError::EmptyResourceTypes => {
                "policy.cedar: translation.resource_types must be non-empty".to_owned()
            },
            ConfigError::DuplicateDecisionPoint { decision_point } => {
                let mut out = "policy.cedar: duplicate decision_point `".to_owned();
                out.append(decision_point.as_str());
                out.append(
                    "` in resource_types — operator must declare each decision_point at most once (with optional `*` catch-all)",
                );
                out
            },
            ConfigError::EmptyResourceType { index, decision_point } => {
                let mut out = "policy.cedar: resource_types[".to_owned();
                push_decimal(&mut out, *index as u128);
                out.append("] (decision_point=`");
                out.append(decision_point.as_str());
                out.append("`): resource_type is empty");
                out
            },
            ConfigError::InvalidCheckInterval => {
                "policy.cedar: reload.check_interval_sec must be > 0 when reload.enabled = true".to_owned()
            },
            ConfigError::EmptySchemaPath => {
                "policy.cedar: schema_path is set but empty".to_owned()
            },
            ConfigError::EmptyEntitiesPath => {
                "policy.cedar: entities_path is set but empty".to_owned()
            },
        }
    }
}

/// Tells whether a text holds nothing but white space.
pub open spec fn blank(s: Seq<char>) -> bool {
    crate::text::trimmed(s).len() == 0
}

/// What is wrong with entry `i`: its resource type is blank, or an entry before it has the same
/// decision point.
pub open spec fn entry_fault(entries: Seq<ResourceType>, i: int) -> Option<ConfigFault> {
    let entry = entries[i];
    if blank(entry.resource_type@) {
        Some(
            ConfigFault::EmptyResourceType { index: i, decision_point: entry.decision_point@ },
        )
    } else if exists|j: int|
        0 <= j < i && #[trigger] entries[j].decision_point@ == entry.decision_point@ {
        Some(ConfigFault::DuplicateDecisionPoint { decision_point: entry.decision_point@ })
    } else {
        None
    }
}

/// What is wrong with the first faulty entry from `i` on.
pub open spec fn first_entry_fault(entries: Seq<ResourceType>, i: int) -> Option<ConfigFault>
    decreases entries.len() - i,
{
    if i < 0 || i >= entries.len() {
        None
    } else if entry_fault(entries, i) is Some {
        entry_fault(entries, i)
    } else {
        first_entry_fault(entries, i + 1)
    }
}

/// The first of `entries` for exactly this decision point.
pub open spec fn first_entry_for(entries: Seq<ResourceType>, decision_point: Seq<char>) -> Option<
    ResourceType,
>
    decreases entries.len(),
{
    if entries.len() == 0 {
        None
    } else if entries[0].decision_point@ == decision_point {
        Some(entries[0])
    } else {
        first_entry_for(entries.drop_first(), decision_point)
    }
}

impl CedarConfig {
    /// What is wrong with the configuration, the first fault in the order in which they are
    /// looked for.
    pub open spec fn fault(self) -> Option<ConfigFault> {
        let entries = self.translation.resource_types@;
        if blank(self.policy_dir@) {
            Some(ConfigFault::EmptyPolicyDir)
        } else if self.reload.enabled && self.reload.check_interval_sec == 0 {
            Some(ConfigFault::InvalidCheckInterval)
        } else if blank(self.translation.principal_type@) {
            Some(ConfigFault::EmptyPrincipalType)
        } else if blank(self.translation.action_namespace@) {
            Some(ConfigFault::EmptyActionNamespace)
        } else if entries.len() == 0 {
            Some(ConfigFault::EmptyResourceTypes)
        } else if first_entry_fault(entries, 0) is Some {
            first_entry_fault(entries, 0)
        } else if self.schema_path is Some && blank(self.schema_path->0@) {
            Some(ConfigFault::EmptySchemaPath)
        } else if self.entities_path is Some && blank(self.entities_path->0@) {
            Some(ConfigFault::EmptyEntitiesPath)
        } else {
            None
        }
    }

    /// The entry for a decision point: the one that names it, or else the `*` entry.
    pub open spec fn entry_for(self, decision_point: Seq<char>) -> Option<ResourceType> {
        let entries = self.translation.resource_types@;
        if first_entry_for(entries, decision_point) is Some {
            first_entry_for(entries, decision_point)
        } else {
            first_entry_for(entries, "*"@)
        }
    }

    /// Takes a configuration as the JSON decoder left it, and checks it.
    pub fn parse(decoded: Result<CedarConfig, String>) -> (r: Result<CedarConfig, ConfigError>)
        ensures
            match decoded {
                Err(text) => r matches Err(e) && e@ == ConfigFault::InvalidJson(text@),
                Ok(cfg) => match cfg.fault() {
                    None => r == Ok::<CedarConfig, ConfigError>(cfg),
                    Some(fault) => r matches Err(e) && e@ == fault,
                },
            },
    {
        match decoded {
            Err(text) => Err(ConfigError::InvalidJson(text)),
            Ok(cfg) => match cfg.validate() {
                Ok(()) => Ok(cfg),
                Err(e) => Err(e),
            },
        }
    }

    /// Checks the configuration.
    pub fn validate(&self) -> (r: Result<(), ConfigError>)
        ensures
            match r {
                Ok(()) => self.fault() is None,
                Err(e) => self.fault() == Some(e@),
            },
    {
        if is_blank(self.policy_dir.as_str()) {
            return Err(ConfigError::EmptyPolicyDir);
        }
        if self.reload.enabled && self.reload.check_interval_sec == 0 {
            return Err(ConfigError::InvalidCheckInterval);
        }
        if is_blank(self.translation.principal_type.as_str()) {
            return Err(ConfigError::EmptyPrincipalType);
        }
        if is_blank(self.translation.action_namespace.as_str()) {
            return Err(ConfigError::EmptyActionNamespace);
        }
        let entries: &Vec<ResourceType> = &self.translation.resource_types;
        if entries.is_empty() {
            return Err(ConfigError::EmptyResourceTypes);
        }
        let mut index: usize = 0;
        while index < entries.len()
            invariant
                index <= entries@.len(),
                first_entry_fault(entries@, 0) == first_entry_fault(entries@, index as int),
                entries@ == self.translation.resource_types@,
                !blank(self.policy_dir@),
                !(self.reload.enabled && self.reload.check_interval_sec == 0),
                !blank(self.translation.principal_type@),
                !blank(self.translation.action_namespace@),
                entries@.len() > 0,
            decreases entries@.len() - index,
        {
            let entry = &entries[index];
            if is_blank(entry.resource_type.as_str()) {
                return Err(
                    ConfigError::EmptyResourceType {
                        index,
                        decision_point: entry.decision_point.clone(),
                    },
                );
            }
            let mut j: usize = 0;
            while j < index
                invariant
                    j <= index < entries@.len(),
                    forall|k: int|
                        0 <= k < j ==> #[trigger] entries@[k].decision_point@
                            != entry.decision_point@,
                    *entry == entries@[index as int],
                    !blank(entry.resource_type@),
                    first_entry_fault(entries@, 0) == first_entry_fault(entries@, index as int),
                    entries@ == self.translation.resource_types@,
                    !blank(self.policy_dir@),
                    !(self.reload.enabled && self.reload.check_interval_sec == 0),
                    !blank(self.translation.principal_type@),
                    !blank(self.translation.action_namespace@),
                    entries@.len() > 0,
                decreases index - j,
            {
                if same_text(entries[j].decision_point.as_str(), entry.decision_point.as_str()) {
                    return Err(
                        ConfigError::DuplicateDecisionPoint {
                            decision_point: entry.decision_point.clone(),
                        },
                    );
                }
                j += 1;
            }
            assert(entry_fault(entries@, index as int) is None);
            index += 1;
        }
        if let Some(path) = &self.schema_path {
            if is_blank(path.as_str()) {
                return Err(ConfigError::EmptySchemaPath);
            }
        }
        if let Some(path) = &self.entities_path {
            if is_blank(path.as_str()) {
                return Err(ConfigError::EmptyEntitiesPath);
            }
        }
        Ok(())
    }

    /// The entry for a decision point: the one that names it, or else the `*` entry.
    pub fn resource_type_for(&self, decision_point: &str) -> (r: Option<&ResourceType>)
        ensures
            match self.entry_for(decision_point@) {
                Some(entry) => r == Some(&entry),
                None => r is None,
            },
    {
        match find_entry(&self.translation.resource_types, decision_point) {
            Some(entry) => Some(entry),
            None => find_entry(&self.translation.resource_types, "*"),
        }
    }
}

/// The first of `entries` for exactly this decision point.
fn find_entry<'a>(entries: &'a Vec<ResourceType>, decision_point: &str) -> (r: Option<
    &'a ResourceType,
>)
    ensures
        match first_entry_for(entries@, decision_point@) {
            Some(entry) => r == Some(&entry),
            None => r is None,
        },
{
    let mut i: usize = 0;
    assert(entries@.skip(0) == entries@);
    while i < entries.len()
        invariant
            i <= entries@.len(),
            first_entry_for(entries@, decision_point@) == first_entry_for(
                entries@.skip(i as int),
                decision_point@,
            ),
        decreases entries@.len() - i,
    {
        if same_text(entries[i].decision_point.as_str(), decision_point) {
            return Some(&entries[i]);
        }
        assert(entries@.skip(i as int).drop_first() == entries@.skip(i + 1));
        i += 1;
    }
    None
}

proof fn lemma_no_entry_fault(entries: Seq<ResourceType>, from: int, i: int)
    requires
        0 <= from <= i < entries.len(),
        first_entry_fault(entries, from) is None,
    ensures
        entry_fault(entries, i) is None,
    decreases i - from,
{
    if from < i {
        lemma_no_entry_fault(entries, from + 1, i);
    }
}

proof fn lemma_first_entry(entries: Seq<ResourceType>, i: int)
    requires
        0 <= i < entries.len(),
        forall|j: int|
            0 <= j < i ==> #[trigger] entries[j].decision_point@ != entries[i].decision_point@,
    ensures
        first_entry_for(entries, entries[i].decision_point@) == Some(entries[i]),
    decreases i,
{
    if i > 0 {
        let rest = entries.drop_first();
        assert(entries[0].decision_point@ != entries[i].decision_point@);
        assert forall|j: int| 0 <= j < i - 1 implies #[trigger] rest[j].decision_point@ != rest[i
            - 1].decision_point@ by {
            assert(rest[j] == entries[j + 1]);
        }
        lemma_first_entry(rest, i - 1);
    }
}

proof fn lemma_no_faulty_entry(entries: Seq<ResourceType>, from: int)
    requires
        0 <= from,
        forall|i: int| from <= i < entries.len() ==> #[trigger] entry_fault(entries, i) is None,
    ensures
        first_entry_fault(entries, from) is None,
    decreases entries.len() - from,
{
    if from < entries.len() {
        assert(entry_fault(entries, from) is None);
        lemma_no_faulty_entry(entries, from + 1);
    }
}

/// What makes a configuration acceptable, whatever is looked at first.
pub open spec fn acceptable(cfg: CedarConfig) -> bool {
    let entries = cfg.translation.resource_types@;
    &&& !blank(cfg.policy_dir@)
    &&& cfg.reload.enabled ==> cfg.reload.check_interval_sec > 0
    &&& !blank(cfg.translation.principal_type@)
    &&& !blank(cfg.translation.action_namespace@)
    &&& entries.len() > 0
    &&& forall|i: int| 0 <= i < entries.len() ==> !blank((#[trigger] entries[i]).resource_type@)
    &&& forall|i: int, j: int|
        0 <= i < j < entries.len() ==> (#[trigger] entries[i]).decision_point@ != (
        #[trigger] entries[j]).decision_point@
    &&& cfg.schema_path matches Some(path) ==> !blank(path@)
    &&& cfg.entities_path matches Some(path) ==> !blank(path@)
}

/// A configuration is accepted exactly if it is acceptable: no required text is blank, the reload
/// interval is not zero where it counts, and each decision point has one entry at most.
pub proof fn law_accepted_configurations(cfg: CedarConfig)
    ensures
        cfg.fault() is None <==> acceptable(cfg),
{
    let entries = cfg.translation.resource_types@;
    if cfg.fault() is None {
        assert forall|i: int, j: int| 0 <= i < j < entries.len() implies (
        #[trigger] entries[i]).decision_point@ != (#[trigger] entries[j]).decision_point@ by {
            lemma_no_entry_fault(entries, 0, j);
        }
        assert forall|i: int| 0 <= i < entries.len() implies !blank(
            (#[trigger] entries[i]).resource_type@,
        ) by {
            lemma_no_entry_fault(entries, 0, i);
        }
    }
    if acceptable(cfg) {
        assert forall|i: int| 0 <= i < entries.len() implies #[trigger] entry_fault(
            entries,
            i,
        ) is None by {
            assert(!blank(entries[i].resource_type@));
        }
        lemma_no_faulty_entry(entries, 0);
    }
}

/// In an accepted configuration each entry is the one found for its own decision point: none is
/// shadowed by another, and the `*` entry shadows none.
pub proof fn law_each_entry_is_found(cfg: CedarConfig, i: int)
    requires
        cfg.fault() is None,
        0 <= i < cfg.translation.resource_types@.len(),
    ensures
        cfg.entry_for(cfg.translation.resource_types@[i].decision_point@) == Some(
            cfg.translation.resource_types@[i],
        ),
        !blank(cfg.translation.resource_types@[i].resource_type@),
{
    let entries = cfg.translation.resource_types@;
    lemma_no_entry_fault(entries, 0, i);
    lemma_first_entry(entries, i);
}

/// A `*` entry covers every decision point: those that no entry names get the first `*` entry.
pub proof fn law_catch_all_covers(cfg: CedarConfig, i: int, decision_point: Seq<char>)
    requires
        0 <= i < cfg.translation.resource_types@.len(),
        cfg.translation.resource_types@[i].decision_point@ == "*"@,
        forall|j: int|
            0 <= j < i ==> #[trigger] cfg.translation.resource_types@[j].decision_point@ != "*"@,
    ensures
        cfg.entry_for(decision_point) is Some,
        first_entry_for(cfg.translation.resource_types@, decision_point) is None ==> cfg.entry_for(
            decision_point,
        ) == Some(cfg.translation.resource_types@[i]),
{
    lemma_first_entry(cfg.translation.resource_types@, i);
}

/// Tells whether a text holds something else than white space.
pub open spec fn has_text(s: Seq<char>) -> bool {
    exists|i: int| 0 <= i < s.len() && !is_space(#[trigger] s[i])
}

proof fn lemma_blank(s: Seq<char>)
    ensures
        blank(s) <==> !has_text(s),
{
    law_trimming(s);
}

/// Tells whether an entry has a resource type, and a decision point that no entry before it has.
pub open spec fn entry_in_order(entries: Seq<ResourceType>, i: int) -> bool {
    &&& has_text(entries[i].resource_type@)
    &&& forall|j: int|
        0 <= j < i ==> (#[trigger] entries[j]).decision_point@ != entries[i].decision_point@
}

/// Tells whether the first `n` entries are in order.
pub open spec fn entries_in_order(entries: Seq<ResourceType>, n: int) -> bool {
    forall|i: int| 0 <= i < n ==> #[trigger] entry_in_order(entries, i)
}

proof fn lemma_entry_fault(entries: Seq<ResourceType>, i: int)
    requires
        0 <= i < entries.len(),
    ensures
        entry_in_order(entries, i) <==> entry_fault(entries, i) is None,
{
    lemma_blank(entries[i].resource_type@);
}

proof fn lemma_entry_faults_from(entries: Seq<ResourceType>, from: int, i: int)
    requires
        0 <= from <= i <= entries.len(),
        forall|k: int| from <= k < i ==> #[trigger] entry_fault(entries, k) is None,
    ensures
        first_entry_fault(entries, from) == first_entry_fault(entries, i),
    decreases i - from,
{
    if from < i {
        assert(entry_fault(entries, from) is None);
        lemma_entry_faults_from(entries, from + 1, i);
    }
}

/// Which fault of a configuration is reported, for what stands in its fields. The policy directory
/// comes first, then the reload interval, the principal type, the action namespace, the entries one
/// by one, the schema path and the entities path; a configuration without a fault is accepted.
pub proof fn law_fault_of_a_configuration(cfg: CedarConfig, i: int, j: int)
    ensures
        ({
            let entries = cfg.translation.resource_types@;
            let dir = has_text(cfg.policy_dir@);
            let interval = dir && (cfg.reload.enabled ==> cfg.reload.check_interval_sec > 0);
            let principal = interval && has_text(cfg.translation.principal_type@);
            let action = principal && has_text(cfg.translation.action_namespace@);
            let entered = action && entries.len() > 0 && entries_in_order(
                entries,
                entries.len() as int,
            );
            let schema = entered && (cfg.schema_path matches Some(path) ==> has_text(path@));
            let entities = schema && (cfg.entities_path matches Some(path) ==> has_text(path@));
            &&& !dir ==> cfg.fault() == Some(ConfigFault::EmptyPolicyDir)
            &&& dir && !interval ==> cfg.fault() == Some(ConfigFault::InvalidCheckInterval)
            &&& interval && !principal ==> cfg.fault() == Some(ConfigFault::EmptyPrincipalType)
            &&& principal && !action ==> cfg.fault() == Some(ConfigFault::EmptyActionNamespace)
            &&& action && entries.len() == 0 ==> cfg.fault() == Some(
                ConfigFault::EmptyResourceTypes,
            )
            &&& action && 0 <= i < entries.len() && entries_in_order(entries, i) && !has_text(
                entries[i].resource_type@,
            ) ==> cfg.fault() == Some(
                ConfigFault::EmptyResourceType {
                    index: i,
                    decision_point: entries[i].decision_point@,
                },
            )
            &&& action && 0 <= j < i < entries.len() && entries_in_order(entries, i) && has_text(
                entries[i].resource_type@,
            ) && entries[j].decision_point@ == entries[i].decision_point@ ==> cfg.fault() == Some(
                ConfigFault::DuplicateDecisionPoint { decision_point: entries[i].decision_point@ },
            )
            &&& entered && !schema ==> cfg.fault() == Some(ConfigFault::EmptySchemaPath)
            &&& schema && !entities ==> cfg.fault() == Some(ConfigFault::EmptyEntitiesPath)
            &&& entities <==> cfg.fault() is None
        }),
{
    let entries = cfg.translation.resource_types@;
    lemma_blank(cfg.policy_dir@);
    lemma_blank(cfg.translation.principal_type@);
    lemma_blank(cfg.translation.action_namespace@);
    if let Some(path) = cfg.schema_path {
        lemma_blank(path@);
    }
    if let Some(path) = cfg.entities_path {
        lemma_blank(path@);
    }
    assert forall|k: int| 0 <= k < entries.len() implies (#[trigger] entry_in_order(entries, k)
        <==> entry_fault(entries, k) is None) by {
        lemma_entry_fault(entries, k);
    }
    if 0 <= i < entries.len() {
        lemma_blank(entries[i].resource_type@);
        if entries_in_order(entries, i) {
            assert forall|k: int| 0 <= k < i implies #[trigger] entry_fault(
                entries,
                k,
            ) is None by {
                assert(entry_in_order(entries, k));
            }
            lemma_entry_faults_from(entries, 0, i);
        }
    }
    if entries_in_order(entries, entries.len() as int) {
        assert forall|k: int| 0 <= k < entries.len() implies #[trigger] entry_fault(
            entries,
            k,
        ) is None by {
            assert(entry_in_order(entries, k));
        }
        lemma_entry_faults_from(entries, 0, entries.len() as int);
    } else {
        let k = choose|k: int|
            0 <= k < entries.len() && !#[trigger] entry_in_order(entries, k);
        if first_entry_fault(entries, 0) is None {
            lemma_no_entry_fault(entries, 0, k);
        }
    }
}

/// What the operator is told of each fault.
pub proof fn law_messages(text: Seq<char>, decision_point: Seq<char>, index: nat)
    ensures
        ConfigFault::InvalidJson(text).message() == "invalid policy.cedar config JSON: "@ + text,
        ConfigFault::EmptyPolicyDir.message() == "policy.cedar: policy_dir is empty"@,
        ConfigFault::EmptyPrincipalType.message()
            == "policy.cedar: translation.principal_type is empty"@,
        ConfigFault::EmptyActionNamespace.message()
            == "policy.cedar: translation.action_namespace is empty"@,
        ConfigFault::EmptyResourceTypes.message()
            == "policy.cedar: translation.resource_types must be non-empty"@,
        (ConfigFault::DuplicateDecisionPoint { decision_point }).message()
            == "policy.cedar: duplicate decision_point `"@ + decision_point
            + "` in resource_types — operator must declare each decision_point at most once (with optional `*` catch-all)"@,
        (ConfigFault::EmptyResourceType { index: index as int, decision_point }).message()
            == "policy.cedar: resource_types["@ + crate::text::decimal(index)
            + "] (decision_point=`"@ + decision_point + "`): resource_type is empty"@,
        ConfigFault::InvalidCheckInterval.message()
            == "policy.cedar: reload.check_interval_sec must be > 0 when reload.enabled = true"@,
        ConfigFault::EmptySchemaPath.message() == "policy.cedar: schema_path is set but empty"@,
        ConfigFault::EmptyEntitiesPath.message() == "policy.cedar: entities_path is set but empty"@,
{
}

/// An error holds the fault that it is named after, with what it carries.
pub proof fn law_errors_hold_their_faults(error: ConfigError)
    ensures
        error is EmptyPolicyDir <==> error@ == ConfigFault::EmptyPolicyDir,
        error is EmptyPrincipalType <==> error@ == ConfigFault::EmptyPrincipalType,
        error is EmptyActionNamespace <==> error@ == ConfigFault::EmptyActionNamespace,
        error is EmptyResourceTypes <==> error@ == ConfigFault::EmptyResourceTypes,
        error is InvalidCheckInterval <==> error@ == ConfigFault::InvalidCheckInterval,
        error is EmptySchemaPath <==> error@ == ConfigFault::EmptySchemaPath,
        error is EmptyEntitiesPath <==> error@ == ConfigFault::EmptyEntitiesPath,
        error matches ConfigError::InvalidJson(text) ==> error@ == ConfigFault::InvalidJson(text@),
        error matches ConfigError::DuplicateDecisionPoint { decision_point } ==> error@ == (
        ConfigFault::DuplicateDecisionPoint { decision_point: decision_point@ }),
        error matches ConfigError::EmptyResourceType { index, decision_point } ==> error@ == (
        ConfigFault::EmptyResourceType { index: index as int, decision_point: decision_point@ }),
{
}

proof fn lemma_first_entry_for(entries: Seq<ResourceType>, decision_point: Seq<char>)
    ensures
        match first_entry_for(entries, decision_point) {
            Some(entry) => exists|i: int|
                0 <= i < entries.len() && #[trigger] entries[i] == entry
                    && entry.decision_point@ == decision_point && forall|j: int|
                    0 <= j < i ==> (#[trigger] entries[j]).decision_point@ != decision_point,
            None => forall|j: int|
                0 <= j < entries.len() ==> (#[trigger] entries[j]).decision_point@
                    != decision_point,
        },
    decreases entries.len(),
{
    if entries.len() > 0 && entries[0].decision_point@ != decision_point {
        let rest = entries.drop_first();
        lemma_first_entry_for(rest, decision_point);
        match first_entry_for(rest, decision_point) {
            Some(entry) => {
                let i = choose|i: int|
                    0 <= i < rest.len() && #[trigger] rest[i] == entry
                        && entry.decision_point@ == decision_point && forall|j: int|
                        0 <= j < i ==> (#[trigger] rest[j]).decision_point@ != decision_point;
                assert(entries[i + 1] == entry);
                assert forall|j: int| 0 <= j < i + 1 implies (
                #[trigger] entries[j]).decision_point@ != decision_point by {
                    if j > 0 {
                        assert(rest[j - 1] == entries[j]);
                    }
                }
            },
            None => {
                assert forall|j: int| 0 <= j < entries.len() implies (
                #[trigger] entries[j]).decision_point@ != decision_point by {
                    if j > 0 {
                        assert(rest[j - 1] == entries[j]);
                    }
                }
            },
        }
    }
}

/// The entry for a decision point is one of the entries: the first that names the decision point, or,
/// where none names it, the first that is a catch-all. There is none exactly where no entry names the
/// decision point and none is a catch-all.
pub proof fn law_entry_for_a_decision_point(cfg: CedarConfig, decision_point: Seq<char>)
    ensures
        ({
            let entries = cfg.translation.resource_types@;
            match cfg.entry_for(decision_point) {
                Some(entry) => exists|i: int|
                    {
                        &&& 0 <= i < entries.len()
                        &&& #[trigger] entries[i] == entry
                        &&& forall|j: int|
                            0 <= j < i ==> (#[trigger] entries[j]).decision_point@
                                != entry.decision_point@
                        &&& entry.decision_point@ == decision_point || (entry.decision_point@
                            == "*"@ && forall|j: int|
                            0 <= j < entries.len() ==> (#[trigger] entries[j]).decision_point@
                                != decision_point)
                    },
                None => forall|j: int|
                    0 <= j < entries.len() ==> (#[trigger] entries[j]).decision_point@
                        != decision_point && entries[j].decision_point@ != "*"@,
            }
        }),
{
    let entries = cfg.translation.resource_types@;
    lemma_first_entry_for(entries, decision_point);
    lemma_first_entry_for(entries, "*"@);
}

} // verus!
