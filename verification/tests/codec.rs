//! Round trips and strictness of the wire codec.

use mmo_server::codec::{
    decode_client_message, decode_server_message, encode_client_message, encode_server_message,
};
use mmo_server::protocol::{
    ChatChannel, ClientMessage, NpcUpdate, ObjectUpdate, PlayerAction, PlayerClass, PlayerData,
    PlayerStats, PlayerUpdate, Quaternion, ServerMessage, Transform, Vector3,
};

fn sample_transform() -> Transform {
    Transform {
        position: Vector3 { x: 10.0f32.to_bits(), y: 0.0f32.to_bits(), z: 5.0f32.to_bits() },
        rotation: Quaternion {
            x: 0.0f32.to_bits(),
            y: 0.0f32.to_bits(),
            z: 0.0f32.to_bits(),
            w: 1.0f32.to_bits(),
        },
        scale: Vector3 { x: 1.0f32.to_bits(), y: 1.0f32.to_bits(), z: 1.0f32.to_bits() },
    }
}

fn sample_velocity() -> Vector3 {
    Vector3 { x: 1.5f32.to_bits(), y: (-2.0f32).to_bits(), z: 0.25f32.to_bits() }
}

fn client_round_trip(m: ClientMessage) {
    let bytes = encode_client_message(&m);
    let back = decode_client_message(bytes.as_slice());
    assert_eq!(back, Some(m.clone()));
    let again = encode_client_message(&back.unwrap());
    assert_eq!(again, bytes);
}

fn server_round_trip(m: ServerMessage) {
    let bytes = encode_server_message(&m);
    let back = decode_server_message(bytes.as_slice());
    assert_eq!(back, Some(m.clone()));
    let again = encode_server_message(&back.unwrap());
    assert_eq!(again, bytes);
}

#[test]
fn round_trip_login() {
    client_round_trip(ClientMessage::Login {
        username: b"alice".to_vec(),
        auth_token: b"t".to_vec(),
    });
}

#[test]
fn round_trip_player_move() {
    client_round_trip(ClientMessage::PlayerMove {
        transform: sample_transform(),
        velocity: sample_velocity(),
        timestamp: 123_456_789,
    });
}

#[test]
fn round_trip_player_action_all_absent() {
    client_round_trip(ClientMessage::PlayerAction {
        action_type: PlayerAction::Jump,
        target_id: None,
        direction: None,
    });
}

#[test]
fn round_trip_player_action_all_present() {
    client_round_trip(ClientMessage::PlayerAction {
        action_type: PlayerAction::Craft,
        target_id: Some(0xdead_beef_dead_beef_dead_beef_dead_beefu128),
        direction: Some(sample_velocity()),
    });
}

#[test]
fn round_trip_chat_message_all_absent() {
    client_round_trip(ClientMessage::ChatMessage {
        channel: ChatChannel::Global,
        message: b"hello world".to_vec(),
        target_id: None,
    });
}

#[test]
fn round_trip_chat_message_all_present() {
    client_round_trip(ClientMessage::ChatMessage {
        channel: ChatChannel::Whisper,
        message: b"psst".to_vec(),
        target_id: Some(42),
    });
}

#[test]
fn round_trip_use_item() {
    client_round_trip(ClientMessage::UseItem { item_id: 7, target_id: Some(9) });
    client_round_trip(ClientMessage::UseItem { item_id: 7, target_id: None });
}

#[test]
fn round_trip_attack() {
    client_round_trip(ClientMessage::Attack { target_id: 77, ability_id: 3 });
}

#[test]
fn round_trip_heartbeat() {
    client_round_trip(ClientMessage::Heartbeat);
}

#[test]
fn round_trip_login_success() {
    server_round_trip(ServerMessage::LoginSuccess { player_id: 99, username: b"alice".to_vec() });
}

#[test]
fn round_trip_login_error() {
    server_round_trip(ServerMessage::LoginError { reason: b"Invalid username".to_vec() });
}

#[test]
fn round_trip_player_update_message() {
    server_round_trip(ServerMessage::PlayerUpdate { player_id: 5, transform: sample_transform() });
}

#[test]
fn round_trip_world_state_empty() {
    server_round_trip(ServerMessage::WorldState {
        players: vec![],
        npcs: vec![],
        objects: vec![],
        timestamp: 42,
    });
}

#[test]
fn round_trip_world_state_full() {
    let players = vec![
        PlayerUpdate {
            player_id: 1,
            transform: sample_transform(),
            velocity: sample_velocity(),
            animation: Some(b"run".to_vec()),
            health: -5,
        },
        PlayerUpdate {
            player_id: 2,
            transform: sample_transform(),
            velocity: sample_velocity(),
            animation: None,
            health: 100,
        },
    ];
    let npcs = vec![NpcUpdate { npc_id: 3, transform: sample_transform(), health: 50 }];
    let objects = vec![ObjectUpdate {
        object_id: 4,
        transform: sample_transform(),
        state: b"open".to_vec(),
    }];
    server_round_trip(ServerMessage::WorldState { players, npcs, objects, timestamp: 7 });
}

#[test]
fn round_trip_player_joined() {
    server_round_trip(ServerMessage::PlayerJoined {
        player_data: PlayerData {
            id: 11,
            name: b"bob".to_vec(),
            level: 12,
            class: PlayerClass::Rogue,
            transform: sample_transform(),
            stats: PlayerStats {
                health: 90,
                max_health: 100,
                mana: 30,
                max_mana: 40,
                strength: 10,
                agility: 11,
                intelligence: 12,
            },
        },
    });
}

#[test]
fn round_trip_player_left() {
    server_round_trip(ServerMessage::PlayerLeft { player_id: 11 });
}

#[test]
fn round_trip_player_transform_update() {
    server_round_trip(ServerMessage::PlayerTransformUpdate {
        player_id: 8,
        transform: sample_transform(),
        velocity: sample_velocity(),
    });
}

#[test]
fn round_trip_server_chat_message() {
    server_round_trip(ServerMessage::ChatMessage {
        channel: ChatChannel::Party,
        message: b"hi".to_vec(),
        from_player: b"alice".to_vec(),
    });
}

#[test]
fn round_trip_chat_error() {
    server_round_trip(ServerMessage::ChatError { reason: b"Player not found".to_vec() });
}

#[test]
fn round_trip_combat_event() {
    server_round_trip(ServerMessage::CombatEvent {
        source_id: 1,
        target_id: 2,
        damage: -17,
        ability_id: 4,
    });
}

#[test]
fn round_trip_heartbeat_response() {
    server_round_trip(ServerMessage::HeartbeatResponse { server_time: u64::MAX });
}

#[test]
fn decode_of_raw_heartbeat_frame() {
    // tag 6, little-endian u32, nothing else
    let bytes = vec![6u8, 0, 0, 0];
    let m = decode_client_message(bytes.as_slice());
    assert_eq!(m, Some(ClientMessage::Heartbeat));
    assert_eq!(encode_client_message(&m.unwrap()), bytes);
}

#[test]
fn decode_rejects_unknown_tag() {
    let bytes = vec![200u8, 0, 0, 0];
    assert_eq!(decode_client_message(bytes.as_slice()), None);
    assert_eq!(decode_server_message(bytes.as_slice()), None);
}

#[test]
fn decode_rejects_trailing_bytes() {
    let mut bytes = encode_client_message(&ClientMessage::Heartbeat);
    bytes.push(0);
    assert_eq!(decode_client_message(bytes.as_slice()), None);
}

#[test]
fn decode_rejects_truncated_frame() {
    let bytes = encode_client_message(&ClientMessage::Attack { target_id: 1, ability_id: 2 });
    assert_eq!(decode_client_message(&bytes[..bytes.len() - 1]), None);
    assert_eq!(decode_client_message(&bytes[..2]), None);
}

#[test]
fn decode_rejects_bad_option_tag() {
    // UseItem with item_id 0 and an option tag of 2
    let mut bytes = vec![4u8, 0, 0, 0];
    bytes.extend_from_slice(&[0u8; 16]);
    bytes.push(2);
    assert_eq!(decode_client_message(bytes.as_slice()), None);
}

#[test]
fn encoding_is_little_endian_and_length_prefixed() {
    let bytes = encode_server_message(&ServerMessage::LoginError { reason: b"no".to_vec() });
    // tag 1 | u64 length 2 | "no"
    let expected = vec![1u8, 0, 0, 0, 2, 0, 0, 0, 0, 0, 0, 0, b'n', b'o'];
    assert_eq!(bytes, expected);
}
