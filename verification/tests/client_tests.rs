use network_sync::client::NetworkSyncModule;
use network_sync::messages::{ActorSyncMessage, RegisteredMessage, ServerMessage};
use network_sync::types::ActorData;
use network_sync::ClientError;

fn sample_actor() -> ActorData {
    ActorData {
        world_position: [0x3F800000, 0x40000000, 0x40400000],
        shape_rotation: [10, 20, 30],
        upper_limb_rot: [-1, -2, -3],
        joint_table: [0; 72],
        current_boots: 1,
        current_shield: 2,
    }
}

fn welcome(module: &mut NetworkSyncModule, id: &str) {
    module.apply_server_message(
        ServerMessage::Welcome {
            player_id: id.to_string(),
        },
        0,
    );
}

fn members_update(module: &mut NetworkSyncModule, session: &str, members: &[&str]) {
    module.apply_server_message(
        ServerMessage::SessionMembers {
            player_id: String::new(),
            session_id: session.to_string(),
            members: members.iter().map(|m| m.to_string()).collect(),
        },
        0,
    );
}

fn actor_sync(module: &mut NetworkSyncModule, sender: &str, data: ActorData, now: u64) {
    module.apply_server_message(
        ServerMessage::ActorSync(ActorSyncMessage {
            event_type: "actor_sync".to_string(),
            sender_id: sender.to_string(),
            data,
        }),
        now,
    );
}

fn registered(module: &mut NetworkSyncModule, sender: &str, id: &str, data: Vec<u8>) {
    module.apply_server_message(
        ServerMessage::RegisteredMessage(RegisteredMessage {
            event_type: "registered_message".to_string(),
            sender_id: sender.to_string(),
            message_id: id.to_string(),
            data,
        }),
        0,
    );
}

#[test]
fn new_module_starts_disconnected_and_empty() {
    let m = NetworkSyncModule::new();
    assert!(!m.connected);
    assert_eq!(m.client_id, "");
    assert_eq!(m.current_session_id, None);
    assert!(m.session_members.is_empty());
    assert!(m.remote_actors.is_empty());
    assert!(m.message_queue.is_empty());
}

#[test]
fn connect_fails_when_already_connected() {
    let mut m = NetworkSyncModule::new();
    assert!(m.connect().is_ok());
    assert_eq!(m.connect(), Err(ClientError::AlreadyConnected));
}

#[test]
fn reconnect_resets_earlier_state() {
    let mut m = NetworkSyncModule::new();
    m.connect().unwrap();
    welcome(&mut m, "me");
    members_update(&mut m, "room", &["me", "peer"]);
    registered(&mut m, "peer", "tag", vec![1]);
    m.disconnect();
    m.connect().unwrap();
    assert_eq!(m.client_id, "");
    assert_eq!(m.current_session_id, None);
    assert!(m.session_members.is_empty());
    assert!(m.message_queue.is_empty());
}

#[test]
fn disconnect_twice_succeeds_both_times() {
    let mut m = NetworkSyncModule::new();
    m.connect().unwrap();
    assert!(m.disconnect());
    assert!(!m.disconnect());
    assert!(!m.connected);
}

#[test]
fn disconnect_clears_session_state_actors_and_queue() {
    let mut m = NetworkSyncModule::new();
    m.connect().unwrap();
    welcome(&mut m, "me");
    m.join_session("room").unwrap();
    actor_sync(&mut m, "peer", sample_actor(), 5);
    registered(&mut m, "peer", "tag", vec![1, 2]);
    m.disconnect();
    assert!(!m.connected);
    assert_eq!(m.current_session_id, None);
    assert!(m.session_members.is_empty());
    assert!(m.remote_actors.is_empty());
    assert!(m.message_queue.is_empty());
    assert_eq!(m.client_id, "me");
}

#[test]
fn join_session_requires_connection() {
    let mut m = NetworkSyncModule::new();
    assert_eq!(m.join_session("room").err(), Some(ClientError::NotConnected));
    m.connect().unwrap();
    let msg = m.join_session("room").unwrap();
    assert_eq!(msg.event_type, "join_session");
    assert_eq!(msg.session_id, "room");
    assert_eq!(m.current_session_id, Some("room".to_string()));
}

#[test]
fn leave_session_keeps_the_recorded_session() {
    let mut m = NetworkSyncModule::new();
    assert_eq!(m.leave_session().err(), Some(ClientError::NotConnected));
    m.connect().unwrap();
    assert!(m.leave_session().unwrap().is_none());
    m.join_session("room").unwrap();
    let msg = m.leave_session().unwrap().expect("a leave envelope");
    assert_eq!(msg.event_type, "leave_session");
    assert_eq!(m.current_session_id, Some("room".to_string()));
}

#[test]
fn send_actor_sync_carries_the_client_id_and_payload() {
    let mut m = NetworkSyncModule::new();
    assert_eq!(
        m.send_actor_sync(&sample_actor()).err(),
        Some(ClientError::NotConnected)
    );
    m.connect().unwrap();
    welcome(&mut m, "me");
    let msg = m.send_actor_sync(&sample_actor()).unwrap();
    assert_eq!(msg.event_type, "actor_sync");
    assert_eq!(msg.sender_id, "me");
    assert_eq!(msg.data.world_position, [0x3F800000, 0x40000000, 0x40400000]);
    assert_eq!(msg.data.shape_rotation, [10, 20, 30]);
}

#[test]
fn send_message_is_silent_outside_a_session_and_exact_inside() {
    let mut m = NetworkSyncModule::new();
    assert_eq!(
        m.send_message("tag", vec![1]).err(),
        Some(ClientError::NotConnected)
    );
    m.connect().unwrap();
    welcome(&mut m, "me");
    assert!(m.send_message("tag", vec![1]).unwrap().is_none());
    m.join_session("room").unwrap();
    let msg = m.send_message("tag", vec![9, 8, 7]).unwrap().unwrap();
    assert_eq!(msg.event_type, "registered_message");
    assert_eq!(msg.sender_id, "me");
    assert_eq!(msg.message_id, "tag");
    assert_eq!(msg.data, vec![9, 8, 7]);
}

#[test]
fn send_message_accepts_an_empty_payload() {
    let mut m = NetworkSyncModule::new();
    m.connect().unwrap();
    welcome(&mut m, "me");
    m.join_session("room").unwrap();
    let msg = m.send_message("ping", Vec::new()).unwrap().unwrap();
    assert_eq!(msg.data, Vec::<u8>::new());
}

#[test]
fn welcome_sets_the_client_id() {
    let mut m = NetworkSyncModule::new();
    m.connect().unwrap();
    welcome(&mut m, "me-123");
    assert_eq!(m.client_id, "me-123");
}

#[test]
fn members_update_sets_membership_and_session() {
    let mut m = NetworkSyncModule::new();
    m.connect().unwrap();
    members_update(&mut m, "room", &["a", "b"]);
    assert_eq!(m.session_members, vec!["a".to_string(), "b".to_string()]);
    assert_eq!(m.current_session_id, Some("room".to_string()));
}

#[test]
fn self_originated_actor_sync_is_ignored() {
    let mut m = NetworkSyncModule::new();
    m.connect().unwrap();
    welcome(&mut m, "me");
    actor_sync(&mut m, "me", sample_actor(), 3);
    assert!(m.remote_actors.is_empty());
    assert!(m.get_remote_actor("me").is_none());
}

#[test]
fn peer_actor_sync_upserts_the_snapshot() {
    let mut m = NetworkSyncModule::new();
    m.connect().unwrap();
    welcome(&mut m, "me");
    actor_sync(&mut m, "peer", sample_actor(), 3);
    assert_eq!(m.remote_actors.len(), 1);
    let got = m.get_remote_actor("peer").expect("stored snapshot");
    assert_eq!(got.shape_rotation, [10, 20, 30]);
    let mut updated = sample_actor();
    updated.shape_rotation = [7, 7, 7];
    actor_sync(&mut m, "peer", updated, 9);
    assert_eq!(m.remote_actors.len(), 1);
    assert_eq!(m.remote_actors[0].1.last_update, 9);
    assert_eq!(
        m.get_remote_actor("peer").unwrap().shape_rotation,
        [7, 7, 7]
    );
    assert_eq!(m.remote_actor_ids(), vec!["peer".to_string()]);
}

#[test]
fn members_shrink_prunes_departed_actors() {
    let mut m = NetworkSyncModule::new();
    m.connect().unwrap();
    welcome(&mut m, "me");
    members_update(&mut m, "room", &["me", "a", "b"]);
    actor_sync(&mut m, "a", sample_actor(), 1);
    actor_sync(&mut m, "b", sample_actor(), 2);
    members_update(&mut m, "room", &["me", "b"]);
    assert!(m.get_remote_actor("a").is_none());
    assert!(m.get_remote_actor("b").is_some());
}

#[test]
fn self_originated_registered_message_is_ignored() {
    let mut m = NetworkSyncModule::new();
    m.connect().unwrap();
    welcome(&mut m, "me");
    registered(&mut m, "me", "tag", vec![1, 2, 3]);
    assert!(m.message_queue.is_empty());
    assert_eq!(m.get_pending_message_size(), 0);
}

#[test]
fn queue_keeps_arrival_order() {
    let mut m = NetworkSyncModule::new();
    m.connect().unwrap();
    welcome(&mut m, "me");
    registered(&mut m, "peer", "first", vec![1]);
    registered(&mut m, "peer", "second", vec![2, 2]);
    assert_eq!(m.get_pending_message_size(), 1);
    let mut buf = vec![0u8; 4];
    assert_eq!(m.get_message(&mut buf), Some("first".to_string()));
    assert_eq!(buf[0], 1);
    assert_eq!(m.get_pending_message_size(), 2);
    assert_eq!(m.get_message(&mut buf), Some("second".to_string()));
    assert_eq!(&buf[0..2], &[2, 2]);
    assert_eq!(m.get_message(&mut buf), None);
}

#[test]
fn short_buffer_leaves_the_queue_head_in_place() {
    let mut m = NetworkSyncModule::new();
    m.connect().unwrap();
    welcome(&mut m, "me");
    registered(&mut m, "peer", "tag", vec![1, 2, 3]);
    let mut short = vec![0u8; 2];
    assert_eq!(m.get_message(&mut short), None);
    assert_eq!(short, vec![0u8, 0u8]);
    assert_eq!(m.get_pending_message_size(), 3);
    assert_eq!(m.message_queue.len(), 1);
    assert_eq!(m.message_queue[0].0, "tag");
    assert_eq!(m.message_queue[0].1, vec![1, 2, 3]);
}

#[test]
fn exact_buffer_length_pops_the_message() {
    let mut m = NetworkSyncModule::new();
    m.connect().unwrap();
    welcome(&mut m, "me");
    registered(&mut m, "peer", "tag", vec![1, 2, 3]);
    let mut exact = vec![0u8; 3];
    assert_eq!(m.get_message(&mut exact), Some("tag".to_string()));
    assert_eq!(exact, vec![1, 2, 3]);
    assert_eq!(m.get_pending_message_size(), 0);
}

#[test]
fn empty_payload_round_trips_through_the_queue() {
    let mut m = NetworkSyncModule::new();
    m.connect().unwrap();
    welcome(&mut m, "me");
    registered(&mut m, "peer", "ping", Vec::new());
    assert_eq!(m.get_pending_message_size(), 0);
    let mut buf = Vec::new();
    assert_eq!(m.get_message(&mut buf), Some("ping".to_string()));
    assert!(buf.is_empty());
}
