use mcpg_policy_cedar::advice::read_json;
use mcpg_policy_cedar::cluster::{
    fingerprint_of, heartbeat_bytes, heartbeat_payload, may_reload, on_peer_message,
    peer_fingerprint, refresh_lock_seconds, should_poke, LockAttempt, PeerMessage,
    POLICIES_LOADED_TOPIC, REFRESH_LOCK,
};

#[test]
fn heartbeats_tell_what_was_loaded() {
    let payload = heartbeat_payload("0.1.0", 3, "abc", "node-1");
    let expected = read_json(
        r#"{
            "plugin_id": "dev.mcpg.policy.cedar",
            "version": "0.1.0",
            "policies_count": 3,
            "fingerprint": "abc",
            "node_id": "node-1"
        }"#,
    );
    assert_eq!(payload, expected.unwrap());
    assert_eq!(
        String::from_utf8(heartbeat_bytes("0.1.0", 3, "a\"b", "n")).unwrap(),
        r#"{"plugin_id":"dev.mcpg.policy.cedar","version":"0.1.0","policies_count":3,"fingerprint":"a\"b","node_id":"n"}"#
    );
}

#[test]
fn fingerprints_are_read_back() {
    for fingerprint in ["abc", "", "a\"b\\c\u{7}é"] {
        let bytes = heartbeat_bytes("0.1.0", u64::MAX, fingerprint, "node-1");
        assert_eq!(peer_fingerprint(&bytes).as_deref(), Some(fingerprint));
    }
}

#[test]
fn garbled_heartbeats_carry_no_fingerprint() {
    for text in ["", "{", "[]", "\"fingerprint\"", "{\"fingerprint\": 1}", "{\"other\": \"x\"}"] {
        assert_eq!(peer_fingerprint(text.as_bytes()), None);
    }
    assert_eq!(peer_fingerprint(&[0xff]), None);
    assert_eq!(fingerprint_of(&None), None);
    assert_eq!(
        fingerprint_of(&read_json("{\"a\": 1, \"fingerprint\": \"f\"}")).as_deref(),
        Some("f")
    );
}

#[test]
fn messages_of_peers() {
    let bytes = heartbeat_bytes("0.1.0", 3, "abc", "node-1");
    assert!(matches!(on_peer_message("me", "me", &bytes, "xyz"), PeerMessage::Own));
    match on_peer_message("node-1", "me", &bytes, "xyz") {
        PeerMessage::Loaded { fingerprint, poke } => {
            assert_eq!(fingerprint.as_deref(), Some("abc"));
            assert!(poke);
        }
        other => panic!("{other:?}"),
    }
    assert!(matches!(
        on_peer_message("node-1", "me", &bytes, "abc"),
        PeerMessage::Loaded { poke: false, .. }
    ));
    assert!(matches!(
        on_peer_message("node-1", "me", b"garbled", "abc"),
        PeerMessage::Loaded { fingerprint: None, poke: true }
    ));
    assert!(should_poke(&None, "abc"));
}

#[test]
fn locks() {
    assert_eq!(refresh_lock_seconds(0), 30);
    assert_eq!(refresh_lock_seconds(1), 30);
    assert_eq!(refresh_lock_seconds(6), 30);
    assert_eq!(refresh_lock_seconds(7), 35);
    assert_eq!(refresh_lock_seconds(60), 300);
    assert!(may_reload(&LockAttempt::Acquired));
    assert!(!may_reload(&LockAttempt::HeldByPeer));
    assert!(!may_reload(&LockAttempt::Failed("x".to_owned())));
    assert_eq!(POLICIES_LOADED_TOPIC, "policy.cedar.policies-loaded");
    assert_eq!(REFRESH_LOCK, "policy.cedar.refresh");
}
