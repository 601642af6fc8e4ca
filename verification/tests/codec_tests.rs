use network_sync::codec::{
    encode_actor_sync, encode_actor_sync_event, encode_join_session, encode_leave_session,
    encode_registered_event, encode_registered_message, encode_session_members, encode_welcome,
};
use network_sync::types::ActorData;

fn sample_actor() -> ActorData {
    let mut joint_table = [0i16; 72];
    joint_table[0] = -7;
    joint_table[71] = 300;
    ActorData {
        world_position: [1.5f32.to_bits(), 0, u32::MAX],
        shape_rotation: [-32768, 0, 32767],
        upper_limb_rot: [1, -1, 10],
        joint_table,
        current_boots: -128,
        current_shield: 127,
    }
}

#[test]
fn join_frame_is_exact() {
    assert_eq!(
        encode_join_session("room-1"),
        r#"{"command":"join_session","session_id":"room-1"}"#
    );
}

#[test]
fn leave_frame_is_exact() {
    assert_eq!(encode_leave_session(), r#"{"command":"leave_session"}"#);
}

#[test]
fn welcome_frame_is_exact() {
    assert_eq!(
        encode_welcome("abc"),
        r#"{"event_type":"welcome","player_id":"abc","data":{}}"#
    );
}

#[test]
fn session_members_frame_is_exact() {
    let members = vec!["a".to_string(), "b".to_string()];
    assert_eq!(
        encode_session_members("a", "room", &members),
        r#"{"event_type":"session_members","player_id":"a","data":{"session_id":"room","members":["a","b"]}}"#
    );
}

#[test]
fn registered_frame_is_exact() {
    assert_eq!(
        encode_registered_message("me", "shout", &vec![0, 1, 255]),
        r#"{"command":"registered_message","sender_id":"me","message_id":"shout","data":[0,1,255]}"#
    );
    assert_eq!(
        encode_registered_message("me", "ping", &Vec::new()),
        r#"{"command":"registered_message","sender_id":"me","message_id":"ping","data":[]}"#
    );
}

#[test]
fn strings_are_escaped_as_json_asks() {
    let encoded = encode_join_session("a\"b\\c\nd");
    assert_eq!(
        encoded,
        r#"{"command":"join_session","session_id":"a\"b\\c\u000ad"}"#
    );
    // The real JSON parser reads the original string back.
    let v: serde_json::Value = serde_json::from_str(&encoded).unwrap();
    assert_eq!(v["session_id"].as_str().unwrap(), "a\"b\\c\nd");
}

#[test]
fn non_ascii_ids_pass_through_unescaped() {
    let encoded = encode_join_session("zimmer-\u{00e9}\u{4e16}");
    let v: serde_json::Value = serde_json::from_str(&encoded).unwrap();
    assert_eq!(v["session_id"].as_str().unwrap(), "zimmer-\u{00e9}\u{4e16}");
}

#[test]
fn actor_frames_parse_back_field_for_field() {
    let a = sample_actor();
    for encoded in [
        encode_actor_sync("me", &a),
        encode_actor_sync_event("me", &a),
    ] {
        let v: serde_json::Value = serde_json::from_str(&encoded).unwrap();
        assert_eq!(v["sender_id"].as_str().unwrap(), "me");
        let data = &v["data"];
        assert_eq!(data["world_position"][0].as_u64().unwrap(), 1.5f32.to_bits() as u64);
        assert_eq!(data["world_position"][2].as_u64().unwrap(), u32::MAX as u64);
        assert_eq!(data["shape_rotation"][0].as_i64().unwrap(), -32768);
        assert_eq!(data["shape_rotation"][2].as_i64().unwrap(), 32767);
        assert_eq!(data["upper_limb_rot"][1].as_i64().unwrap(), -1);
        assert_eq!(data["joint_table"].as_array().unwrap().len(), 72);
        assert_eq!(data["joint_table"][0].as_i64().unwrap(), -7);
        assert_eq!(data["joint_table"][71].as_i64().unwrap(), 300);
        assert_eq!(data["current_boots"].as_i64().unwrap(), -128);
        assert_eq!(data["current_shield"].as_i64().unwrap(), 127);
    }
    assert!(encode_actor_sync("me", &a).starts_with(r#"{"command":"actor_sync""#));
    assert!(encode_actor_sync_event("me", &a).starts_with(r#"{"event_type":"actor_sync""#));
}

#[test]
fn registered_event_parses_back() {
    let encoded = encode_registered_event("me", "shout", &vec![1, 2, 3]);
    let v: serde_json::Value = serde_json::from_str(&encoded).unwrap();
    assert_eq!(v["event_type"].as_str().unwrap(), "registered_message");
    assert_eq!(v["message_id"].as_str().unwrap(), "shout");
    let bytes: Vec<u8> = serde_json::from_value(v["data"].clone()).unwrap();
    assert_eq!(bytes, vec![1, 2, 3]);
}
