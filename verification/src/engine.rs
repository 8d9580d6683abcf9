//! How the engine introduces itself, and which policies it says are in force.

use std::time::SystemTime;

use vstd::prelude::*;
use vstd::string::*;

use crate::clock::{now_marker, unix_time};
use crate::config::CedarConfig;
use crate::protocol::{PluginClass, PluginManifest, PolicyVersion};
use crate::request::explain;
use crate::text::{chars_of, decimal};

verus! {

/// The id of the plugin.
pub const PLUGIN_ID: &'static str = "dev.mcpg.policy.cedar";

/// The name of the engine.
pub const ENGINE_NAME: &'static str = "cedar";

/// What stands before the first `::` of a module path.
pub open spec fn root_module(path: Seq<char>) -> Seq<char>
    decreases path.len(),
{
    if path.len() < 2 {
        path
    } else if path[0] == ':' && path[1] == ':' {
        Seq::empty()
    } else {
        seq![path[0]] + root_module(path.drop_first())
    }
}

proof fn lemma_root_module(path: Seq<char>, at: int)
    requires
        0 <= at <= path.len(),
        forall|i: int|
            #![trigger path[i]]
            0 <= i < at && i + 1 < path.len() ==> !(path[i] == ':' && path[i + 1] == ':'),
        at == path.len() || (at + 1 < path.len() && path[at] == ':' && path[at + 1] == ':'),
    ensures
        root_module(path) == path.take(at),
    decreases path.len(),
{
    if path.len() < 2 {
        assert(path.take(at) == path);
    } else if at == 0 {
        assert(path.take(0) == Seq::<char>::empty());
    } else {
        let rest = path.drop_first();
        assert(path[0] != ':' || path[1] != ':');
        assert forall|i: int|
            #![trigger rest[i]]
            0 <= i < at - 1 && i + 1 < rest.len() implies !(rest[i] == ':' && rest[i + 1]
            == ':') by {
            assert(rest[i] == path[i + 1] && rest[i + 1] == path[i + 2]);
        }
        lemma_root_module(rest, at - 1);
        assert(seq![path[0]] + rest.take(at - 1) == path.take(at));
    }
}

/// What stands before the first `::` of a module path.
pub fn module_path_prefix(path: &str) -> (r: &str)
    ensures
        r@ == root_module(path@),
{
    let chars = chars_of(path);
    let mut i: usize = 0;
    while i < chars.len() && !(i + 1 < chars.len() && chars[i] == ':' && chars[i + 1] == ':')
        invariant
            i <= chars@.len(),
            forall|j: int|
                #![trigger chars@[j]]
                0 <= j < i && j + 1 < chars@.len() ==> !(chars@[j] == ':' && chars@[j + 1] == ':'),
        decreases chars@.len() - i,
    {
        i += 1;
    }
    proof {
        lemma_root_module(path@, i as int);
        assert(path@.subrange(0, i as int) == path@.take(i as int));
    }
    path.substring_char(0, i)
}

/// How the engine introduces itself, in this version and from this module.
pub fn manifest(version: &str, module: &str) -> (r: PluginManifest)
    ensures
        r.id@ == PLUGIN_ID@,
        r.version@ == version@,
        r.name@ == "Cedar Policy Engine"@,
        r.plugin_class == PluginClass::PolicyEngine,
        r.protocol_version@ == "1.0"@,
        r.license is None,
        r.required_capabilities@.len() == 0,
        r.tags@.len() == 0,
        r.provides@.len() == 0,
        r.provides_schemes@.len() == 0,
        r.module_path_prefix@ == root_module(module@),
        r.backend_profile is None,
{
    PluginManifest {
        id: PLUGIN_ID.to_owned(),
        version: version.to_owned(),
        name: "Cedar Policy Engine".to_owned(),
        plugin_class: PluginClass::PolicyEngine,
        protocol_version: "1.0".to_owned(),
        license: None,
        required_capabilities: Vec::new(),
        tags: Vec::new(),
        provides: Vec::new(),
        provides_schemes: Vec::new(),
        module_path_prefix: module_path_prefix(module).to_owned(),
        backend_profile: None,
    }
}

/// Which policies are in force, as asked at the time of this marker.
pub fn policy_version_at(config: &CedarConfig, fingerprint: &str, marker: String) -> (r:
    PolicyVersion)
    ensures
        r.hash@ == fingerprint@,
        r.loaded_at@ == marker@,
        r.source@ == "cedar policies in "@ + config.policy_dir@,
{
    PolicyVersion {
        hash: fingerprint.to_owned(),
        loaded_at: marker,
        source: explain("cedar policies in ", config.policy_dir.as_str()),
    }
}

/// Which policies are in force, as asked now.
pub fn current_policy_version(config: &CedarConfig, fingerprint: &str) -> (r: PolicyVersion)
    ensures
        r.hash@ == fingerprint@,
        exists|reading: SystemTime|
            r.loaded_at@ == "@"@ + decimal((#[trigger] unix_time(reading)).0),
        r.source@ == "cedar policies in "@ + config.policy_dir@,
{
    policy_version_at(config, fingerprint, now_marker())
}

/// What a module is rooted in: all of its path where `::` does not occur in it, and otherwise what
/// stands before the first place where it does.
pub proof fn law_root_of_a_path(root: Seq<char>, rest: Seq<char>, path: Seq<char>)
    requires
        forall|i: int|
            #![trigger root[i]]
            0 <= i < root.len() - 1 ==> !(root[i] == ':' && root[i + 1] == ':'),
        root.len() > 0 ==> root.last() != ':',
        forall|i: int|
            #![trigger path[i]]
            0 <= i < path.len() - 1 ==> !(path[i] == ':' && path[i + 1] == ':'),
    ensures
        root_module(root + seq![':', ':'] + rest) == root,
        root_module(path) == path,
{
    let whole = root + seq![':', ':'] + rest;
    let at = root.len() as int;
    assert forall|i: int|
        #![trigger whole[i]]
        0 <= i < at && i + 1 < whole.len() implies !(whole[i] == ':' && whole[i + 1] == ':') by {
        assert(whole[i] == root[i]);
        if i + 1 < at {
            assert(whole[i + 1] == root[i + 1]);
        }
    }
    assert(whole[at] == ':' && whole[at + 1] == ':');
    lemma_root_module(whole, at);
    assert(whole.take(at) == root);
    lemma_root_module(path, path.len() as int);
    assert(path.take(path.len() as int) == path);
}

} // verus!
