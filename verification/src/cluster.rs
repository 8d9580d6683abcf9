//! What the nodes of a cluster tell each other about their policies.

use vstd::prelude::*;
use vstd::string::*;

use crate::engine::PLUGIN_ID;
use crate::json::{
    from_value, is_flat, json_bytes, json_bytes_read, law_member_of_a_name, member, parse_bytes,
    to_value, value_bytes, Json, JsonValue,
};
use crate::text::{decimal, same_text};

verus! {

/// The topic on which a node tells which policies it has loaded.
pub const POLICIES_LOADED_TOPIC: &'static str = "policy.cedar.policies-loaded";

/// The lock that a node holds while it reloads.
pub const REFRESH_LOCK: &'static str = "policy.cedar.refresh";

/// What a node tells when it has loaded policies.
pub open spec fn heartbeat(
    version: Seq<char>,
    policies_count: nat,
    fingerprint: Seq<char>,
    node_id: Seq<char>,
) -> JsonValue {
    JsonValue::Object(
        seq![
            ("plugin_id"@, JsonValue::Text(PLUGIN_ID@)),
            ("version"@, JsonValue::Text(version)),
            ("policies_count"@, JsonValue::Number(decimal(policies_count))),
            ("fingerprint"@, JsonValue::Text(fingerprint)),
            ("node_id"@, JsonValue::Text(node_id)),
        ],
    )
}

proof fn lemma_heartbeat_names()
    ensures
        "plugin_id"@ != "version"@,
        "plugin_id"@ != "policies_count"@,
        "plugin_id"@ != "fingerprint"@,
        "plugin_id"@ != "node_id"@,
        "version"@ != "policies_count"@,
        "version"@ != "fingerprint"@,
        "version"@ != "node_id"@,
        "policies_count"@ != "fingerprint"@,
        "policies_count"@ != "node_id"@,
        "fingerprint"@ != "node_id"@,
{
    reveal_strlit("plugin_id");
    reveal_strlit("version");
    reveal_strlit("policies_count");
    reveal_strlit("fingerprint");
    reveal_strlit("node_id");
    assert("plugin_id"@.len() == 9);
    assert("version"@.len() == 7);
    assert("policies_count"@.len() == 14);
    assert("fingerprint"@.len() == 11);
    assert("node_id"@.len() == 7);
    assert("version"@[0] != "node_id"@[0]);
}

/// What a node tells when it has loaded policies.
pub fn heartbeat_payload(version: &str, policies_count: u64, fingerprint: &str, node_id: &str) -> (r:
    Json)
    ensures
        r@ == heartbeat(version@, policies_count as nat, fingerprint@, node_id@),
        r@.distinct(),
{
    let mut members: Vec<(String, Json)> = Vec::new();
    members.push(("plugin_id".to_owned(), Json::text(PLUGIN_ID)));
    members.push(("version".to_owned(), Json::text(version)));
    members.push(("policies_count".to_owned(), Json::unsigned(policies_count)));
    members.push(("fingerprint".to_owned(), Json::text(fingerprint)));
    members.push(("node_id".to_owned(), Json::text(node_id)));
    let r = Json::Object(members);
    proof {
        let expected = heartbeat(version@, policies_count as nat, fingerprint@, node_id@);
        assert(r@->Object_0 == expected->Object_0);
        lemma_heartbeat_names();
        let values = expected->Object_0;
        assert forall|i: int, j: int| 0 <= i < j < values.len() implies (#[trigger] values[i]).0
            != (#[trigger] values[j]).0 by {}
        assert forall|i: int| 0 <= i < values.len() implies (#[trigger] values[i]).1.distinct() by {}
    }
    r
}

/// The bytes in which a node tells that it has loaded policies. Read as JSON they give what the node
/// tells.
pub fn heartbeat_bytes(version: &str, policies_count: u64, fingerprint: &str, node_id: &str) -> (r:
    Vec<u8>)
    ensures
        r@ == json_bytes(heartbeat(version@, policies_count as nat, fingerprint@, node_id@)),
        json_bytes_read(r@) == Some(
            heartbeat(version@, policies_count as nat, fingerprint@, node_id@),
        ),
{
    let payload = heartbeat_payload(version, policies_count, fingerprint, node_id);
    proof {
        let members = payload@->Object_0;
        assert forall|i: int| 0 <= i < members.len() implies match (#[trigger] members[i]).1 {
            JsonValue::Text(_) => true,
            JsonValue::Number(text) => exists|n: u64| text == #[trigger] decimal(n as nat),
            _ => false,
        } by {
            if i == 2 {
                assert(members[2].1 == JsonValue::Number(decimal(policies_count as nat)));
            }
        }
        assert(is_flat(payload@));
    }
    value_bytes(&to_value(&payload))
}

/// The fingerprint that a heartbeat carries, where it carries one.
pub open spec fn fingerprint_in(heard: Option<JsonValue>) -> Option<Seq<char>> {
    match heard {
        Some(JsonValue::Object(members)) => match member(members, "fingerprint"@) {
            Some(JsonValue::Text(text)) => Some(text),
            _ => None,
        },
        _ => None,
    }
}

/// The fingerprint that a heartbeat carries, from what its bytes read as.
pub fn fingerprint_of(heard: &Option<Json>) -> (r: Option<String>)
    ensures
        crate::protocol::text_of(r) == fingerprint_in(
            match heard {
                Some(json) => Some(json@),
                None => None,
            },
        ),
{
    let members = match heard {
        Some(Json::Object(members)) => members,
        _ => return None,
    };
    let ghost values = heard->0@->Object_0;
    let mut i: usize = 0;
    assert(values.skip(0) == values);
    while i < members.len()
        invariant
            i <= members@.len(),
            values.len() == members@.len(),
            forall|j: int|
                0 <= j < values.len() ==> #[trigger] values[j] == (
                members@[j].0@,
                members@[j].1@),
            member(values, "fingerprint"@) == member(values.skip(i as int), "fingerprint"@),
            heard matches Some(json) && json@ == JsonValue::Object(values),
        decreases members@.len() - i,
    {
        if same_text(members[i].0.as_str(), "fingerprint") {
            assert(values.skip(i as int)[0] == values[i as int]);
            return match &members[i].1 {
                Json::Text(text) => Some(text.clone()),
                _ => None,
            };
        }
        assert(values.skip(i as int)[0] == values[i as int]);
        assert(values.skip(i as int).drop_first() == values.skip(i + 1));
        i += 1;
    }
    None
}

/// The fingerprint that the bytes of a heartbeat carry. Garbled bytes carry none.
pub fn peer_fingerprint(payload: &[u8]) -> (r: Option<String>)
    ensures
        crate::protocol::text_of(r) == fingerprint_in(json_bytes_read(payload@)),
{
    let heard = match parse_bytes(payload) {
        Some(value) => Some(from_value(&value)),
        None => None,
    };
    fingerprint_of(&heard)
}

/// What is made of a message of another node.
#[derive(Debug)]
pub enum PeerMessage {
    /// The message is our own.
    Own,
    /// Another node has loaded policies. Where they are not known to be the same as ours, our files
    /// are looked at out of turn.
    Loaded { fingerprint: Option<String>, poke: bool },
}

/// Tells whether our files are to be looked at out of turn: unless the other node is known to have
/// the same policies.
pub open spec fn pokes(peer: Option<Seq<char>>, local: Seq<char>) -> bool {
    peer != Some(local)
}

/// Tells whether our files are to be looked at out of turn.
pub fn should_poke(peer: &Option<String>, local: &str) -> (r: bool)
    ensures
        r == pokes(crate::protocol::text_of(*peer), local@),
{
    match peer {
        Some(fingerprint) => !same_text(fingerprint.as_str(), local),
        None => true,
    }
}

/// What is made of a message, from the node that sent it, our own node, its bytes and the
/// fingerprint of our policies.
pub fn on_peer_message(from_node: &str, local_node: &str, payload: &[u8], local: &str) -> (r:
    PeerMessage)
    ensures
        match r {
            PeerMessage::Own => from_node@ == local_node@,
            PeerMessage::Loaded { fingerprint, poke } => {
                &&& from_node@ != local_node@
                &&& crate::protocol::text_of(fingerprint) == fingerprint_in(
                    json_bytes_read(payload@),
                )
                &&& poke == pokes(fingerprint_in(json_bytes_read(payload@)), local@)
            },
        },
{
    if same_text(from_node, local_node) {
        return PeerMessage::Own;
    }
    let fingerprint = peer_fingerprint(payload);
    let poke = should_poke(&fingerprint, local);
    PeerMessage::Loaded { fingerprint, poke }
}

/// A heartbeat makes another node look at its files exactly where that node has other policies. A
/// garbled one makes it look in any case.
pub proof fn law_heartbeat_pokes_where_policies_differ(
    version: Seq<char>,
    policies_count: nat,
    fingerprint: Seq<char>,
    node_id: Seq<char>,
    local: Seq<char>,
)
    ensures
        fingerprint_in(Some(heartbeat(version, policies_count, fingerprint, node_id))) == Some(
            fingerprint,
        ),
        pokes(
            fingerprint_in(Some(heartbeat(version, policies_count, fingerprint, node_id))),
            local,
        ) <==> fingerprint != local,
        pokes(None, local),
{
    lemma_heartbeat_names();
    let members = heartbeat(version, policies_count, fingerprint, node_id)->Object_0;
    reveal_with_fuel(member, 5);
    assert(members.drop_first()[0] == members[1]);
    assert(members.drop_first().drop_first()[0] == members[2]);
    assert(members.drop_first().drop_first().drop_first()[0] == members[3]);
}

/// How long the lock is held at most, in seconds: five intervals between two looks at the files,
/// and no less than half a minute, so that it outlives the reload.
pub open spec fn lock_seconds(interval: nat) -> nat {
    if 5 * interval > 30 {
        5 * interval
    } else {
        30
    }
}

/// How long the lock is held at most, in seconds.
pub fn refresh_lock_seconds(interval: u64) -> (r: u64)
    requires
        5 * interval <= u64::MAX,
    ensures
        r == lock_seconds(interval as nat),
{
    let several: u64 = interval * 5;
    if several > 30 {
        several
    } else {
        30
    }
}

/// What came of an attempt to get the lock.
#[derive(Debug)]
pub enum LockAttempt {
    Acquired,
    HeldByPeer,
    Failed(String),
}

/// Tells whether a node may reload: only while it holds the lock.
pub fn may_reload(attempt: &LockAttempt) -> (r: bool)
    ensures
        r == (attempt is Acquired),
{
    match attempt {
        LockAttempt::Acquired => true,
        LockAttempt::HeldByPeer => false,
        LockAttempt::Failed(_) => false,
    }
}

/// What a heartbeat tells: the plugin, the version, the number and the fingerprint of the policies, and
/// the node.
pub proof fn law_heartbeat_tells(
    version: Seq<char>,
    policies_count: nat,
    fingerprint: Seq<char>,
    node_id: Seq<char>,
)
    ensures
        ({
            let told = heartbeat(version, policies_count, fingerprint, node_id);
            let members = told->Object_0;
            &&& told is Object
            &&& members.len() == 5
            &&& members[0] == ("plugin_id"@, JsonValue::Text("dev.mcpg.policy.cedar"@))
            &&& members[1] == ("version"@, JsonValue::Text(version))
            &&& members[2] == ("policies_count"@, JsonValue::Number(decimal(policies_count)))
            &&& members[3] == ("fingerprint"@, JsonValue::Text(fingerprint))
            &&& members[4] == ("node_id"@, JsonValue::Text(node_id))
        }),
{
}

/// The fingerprint in what is heard is the text under that name in an object, where the first member of
/// that name is a text. Anything else carries none.
pub proof fn law_fingerprint_heard(members: Seq<(Seq<char>, JsonValue)>, other: JsonValue)
    ensures
        fingerprint_in(None) is None,
        !(other is Object) ==> fingerprint_in(Some(other)) is None,
        fingerprint_in(Some(JsonValue::Object(members))) matches Some(text) ==> exists|i: int|
            0 <= i < members.len() && #[trigger] members[i] == (
                "fingerprint"@,
                JsonValue::Text(text),
            ) && forall|j: int| 0 <= j < i ==> (#[trigger] members[j]).0 != "fingerprint"@,
        fingerprint_in(Some(JsonValue::Object(members))) is None ==> forall|i: int|
            0 <= i < members.len() && (#[trigger] members[i]).0 == "fingerprint"@ && members[i].1
                is Text ==> exists|j: int| 0 <= j < i && (#[trigger] members[j]).0 == "fingerprint"@,
{
    law_member_of_a_name(members, "fingerprint"@);
    if let Some(value) = member(members, "fingerprint"@) {
        let at = choose|i: int|
            0 <= i < members.len() && #[trigger] members[i] == ("fingerprint"@, value) && forall|
                j: int,
            |
                0 <= j < i ==> (#[trigger] members[j]).0 != "fingerprint"@;
        assert(members[at].0 == "fingerprint"@);
    }
}

/// A node looks at its files out of turn unless the other node is known to have the same policies.
pub proof fn law_only_known_equals_do_not_poke(peer: Seq<char>, local: Seq<char>)
    ensures
        pokes(None, local),
        pokes(Some(peer), local) <==> peer != local,
{
}

/// The lock is held for at most five intervals, or half a minute where that is longer.
pub proof fn law_lock_outlives_reloads(interval: nat)
    ensures
        lock_seconds(interval) >= 30,
        lock_seconds(interval) >= interval + interval + interval + interval + interval,
        lock_seconds(interval) == 30 || lock_seconds(interval) == interval + interval + interval
            + interval + interval,
{
}

} // verus!
