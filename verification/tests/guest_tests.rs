use network_sync::client::NetworkSyncModule;
use network_sync::guest::{
    get_client_id, get_message_into, get_remote_actor_data, get_remote_actor_ids,
};
use network_sync::marshal::{write_record, ACTOR_RECORD_SIZE};
use network_sync::messages::{ActorSyncMessage, RegisteredMessage, ServerMessage};
use network_sync::types::ActorData;

fn sample_actor() -> ActorData {
    ActorData {
        world_position: [7, 8, 9],
        shape_rotation: [1, 2, 3],
        upper_limb_rot: [4, 5, 6],
        joint_table: [11; 72],
        current_boots: -1,
        current_shield: 3,
    }
}

fn connected_module(id: &str) -> NetworkSyncModule {
    let mut m = NetworkSyncModule::new();
    m.connect().unwrap();
    m.apply_server_message(
        ServerMessage::Welcome {
            player_id: id.to_string(),
        },
        0,
    );
    m
}

#[test]
fn client_id_is_written_nul_terminated() {
    let m = connected_module("abc");
    let mut mem = vec![0xAAu8; 64];
    assert!(get_client_id(&m, &mut mem, 4, 16));
    assert_eq!(&mem[4..8], b"abc\0");
    assert_eq!(mem[3], 0xAA);
    assert_eq!(mem[8], 0xAA);
}

#[test]
fn empty_client_id_reports_failure_and_writes_nothing() {
    let mut m = NetworkSyncModule::new();
    m.connect().unwrap();
    let mut mem = vec![0xAAu8; 64];
    assert!(!get_client_id(&m, &mut mem, 4, 16));
    assert!(mem.iter().all(|b| *b == 0xAA));
}

#[test]
fn long_client_id_is_truncated_to_the_budget() {
    let m = connected_module("abcdefgh");
    let mut mem = vec![0xAAu8; 64];
    assert!(get_client_id(&m, &mut mem, 0, 4));
    assert_eq!(&mem[0..4], b"abc\0");
    assert_eq!(mem[4], 0xAA);
}

#[test]
fn remote_actor_ids_are_laid_out_at_stride() {
    let mut m = connected_module("me");
    for peer in ["p1", "p2", "p3"] {
        m.apply_server_message(
            ServerMessage::ActorSync(ActorSyncMessage {
                event_type: "actor_sync".to_string(),
                sender_id: peer.to_string(),
                data: sample_actor(),
            }),
            1,
        );
    }
    let mut mem = vec![0xAAu8; 64];
    let n = get_remote_actor_ids(&m, &mut mem, 8, 8, 8);
    assert_eq!(n, 3);
    assert_eq!(&mem[8..11], b"p1\0");
    assert_eq!(&mem[16..19], b"p2\0");
    assert_eq!(&mem[24..27], b"p3\0");
    let mut untouched = vec![0xAAu8; 64];
    let zero = get_remote_actor_ids(&m, &mut untouched, 8, 8, 0);
    assert_eq!(zero, 0);
    assert!(untouched.iter().all(|b| *b == 0xAA));
    let mut capped = vec![0u8; 64];
    assert_eq!(get_remote_actor_ids(&m, &mut capped, 0, 8, 2), 2);
}

#[test]
fn remote_actor_data_round_trips_through_guest_memory() {
    let mut m = connected_module("me");
    m.apply_server_message(
        ServerMessage::ActorSync(ActorSyncMessage {
            event_type: "actor_sync".to_string(),
            sender_id: "peer".to_string(),
            data: sample_actor(),
        }),
        1,
    );
    let mut mem = vec![0u8; 512];
    assert!(get_remote_actor_data(&m, "peer", &mut mem, 16));
    let mut expected = vec![0u8; 512];
    write_record(&sample_actor(), &mut expected, 16);
    assert_eq!(mem[16..16 + ACTOR_RECORD_SIZE], expected[16..16 + ACTOR_RECORD_SIZE]);
    let mut untouched = vec![0xAAu8; 512];
    assert!(!get_remote_actor_data(&m, "ghost", &mut untouched, 16));
    assert!(untouched.iter().all(|b| *b == 0xAA));
}

#[test]
fn message_is_delivered_with_zeroed_tail_and_tag() {
    let mut m = connected_module("me");
    m.apply_server_message(
        ServerMessage::RegisteredMessage(RegisteredMessage {
            event_type: "registered_message".to_string(),
            sender_id: "peer".to_string(),
            message_id: "shout".to_string(),
            data: vec![1, 2, 3],
        }),
        0,
    );
    let mut mem = vec![0xAAu8; 256];
    assert!(get_message_into(&mut m, &mut mem, 0, 8, 128));
    assert_eq!(&mem[0..8], &[1, 2, 3, 0, 0, 0, 0, 0]);
    assert_eq!(&mem[128..134], b"shout\0");
    assert_eq!(mem[134], 0xAA);
    assert_eq!(m.get_pending_message_size(), 0);
}

#[test]
fn short_guest_buffer_keeps_the_message_and_marks_the_tag_empty() {
    let mut m = connected_module("me");
    m.apply_server_message(
        ServerMessage::RegisteredMessage(RegisteredMessage {
            event_type: "registered_message".to_string(),
            sender_id: "peer".to_string(),
            message_id: "shout".to_string(),
            data: vec![1, 2, 3],
        }),
        0,
    );
    let mut mem = vec![0xAAu8; 256];
    assert!(!get_message_into(&mut m, &mut mem, 0, 2, 128));
    assert_eq!(mem[128], 0);
    assert_eq!(mem[0], 0xAA);
    assert_eq!(m.get_pending_message_size(), 3);
}

#[test]
fn empty_queue_reports_no_message() {
    let mut m = connected_module("me");
    let mut mem = vec![0xAAu8; 256];
    assert!(!get_message_into(&mut m, &mut mem, 0, 8, 128));
    assert_eq!(mem[128], 0);
}
