//! The session registry, the world and the connection state machine,
//! driven as the server drives them.

use mmo_server::codec::encode_server_message;
use mmo_server::connection::{process_frame, process_message, ConnectionContext, ConnectionState, handle_disconnect, validate_username};
use mmo_server::codec::encode_client_message;
use mmo_server::protocol::{format_channel, ChatChannel, ClientMessage, PlayerId, Quaternion, ServerMessage, Transform, Vector3};
use mmo_server::session::GameSession;
use mmo_server::session_manager::{RegistryError, SessionManager};
use mmo_server::world::GameWorld;

fn fresh() -> (ConnectionContext, SessionManager, GameWorld) {
    (ConnectionContext::new(), SessionManager::new(), GameWorld::new())
}

fn login(
    ctx: &mut ConnectionContext,
    sm: &mut SessionManager,
    world: &mut GameWorld,
    name: &str,
) -> PlayerId {
    let replies = process_message(ctx, sm, world, ClientMessage::Login {
        username: name.as_bytes().to_vec(),
        auth_token: b"t".to_vec(),
    });
    assert_eq!(replies.len(), 1);
    match &replies[0] {
        ServerMessage::LoginSuccess { player_id, username } => {
            assert_eq!(username.as_slice(), name.as_bytes());
            *player_id
        },
        other => panic!("expected LoginSuccess, got {:?}", other),
    }
}

fn queue_of(sm: &SessionManager, id: PlayerId) -> Vec<Vec<u8>> {
    for s in sm.sessions.iter() {
        if s.player_id == id {
            return s.outbound.clone();
        }
    }
    panic!("no session for {id}");
}

#[test]
fn successful_login_adds_one_entry_each() {
    let (mut ctx, mut sm, mut world) = fresh();
    let id = login(&mut ctx, &mut sm, &mut world, "alice");
    assert_eq!(sm.sessions.len(), 1);
    assert_eq!(world.player_count(), 1);
    assert_eq!(sm.sessions[0].player_id, id);
    assert!(world.get_player_state(id).is_some());
    assert_eq!(ctx.state, ConnectionState::Authenticated);
    assert_eq!(ctx.player_id, Some(id));
}

#[test]
fn rejected_usernames_create_nothing() {
    for bad in [
        "".to_string(),
        "a".repeat(33),
        "非ASCII名前".to_string(),
    ] {
        let (mut ctx, mut sm, mut world) = fresh();
        let replies = process_message(&mut ctx, &mut sm, &mut world, ClientMessage::Login {
            username: bad.as_bytes().to_vec(),
            auth_token: b"t".to_vec(),
        });
        assert_eq!(replies.len(), 1);
        match &replies[0] {
            ServerMessage::LoginError { reason } => {
                assert_eq!(reason.as_slice(), b"Invalid username");
            },
            other => panic!("expected LoginError, got {:?}", other),
        }
        assert_eq!(sm.sessions.len(), 0);
        assert_eq!(world.player_count(), 0);
        assert_eq!(ctx.state, ConnectionState::Unauthenticated);
    }
}

#[test]
fn username_rules() {
    assert!(validate_username(&b"a".to_vec()));
    assert!(validate_username(&b"a name with spaces 32 bytes ok!!".to_vec()));
    assert!(!validate_username(&b"".to_vec()));
    assert!(!validate_username(&"a".repeat(33).into_bytes()));
    assert!(!validate_username(&vec![0x19u8]));
    assert!(!validate_username(&vec![0x7fu8]));
}

#[test]
fn broadcast_reaches_every_session() {
    let mut sm = SessionManager::new();
    sm.add_session(GameSession::new(1, b"a".to_vec())).unwrap();
    sm.add_session(GameSession::new(2, b"b".to_vec())).unwrap();
    sm.add_session(GameSession::new(3, b"c".to_vec())).unwrap();
    let msg = ServerMessage::PlayerLeft { player_id: 9 };
    let frame = encode_server_message(&msg);
    let count = sm.broadcast(&msg);
    assert_eq!(count, 3);
    for s in sm.sessions.iter() {
        assert_eq!(s.outbound, vec![frame.clone()]);
    }
}

#[test]
fn broadcast_except_skips_exactly_the_excluded() {
    let mut sm = SessionManager::new();
    sm.add_session(GameSession::new(1, b"a".to_vec())).unwrap();
    sm.add_session(GameSession::new(2, b"b".to_vec())).unwrap();
    sm.add_session(GameSession::new(3, b"c".to_vec())).unwrap();
    let msg = ServerMessage::PlayerLeft { player_id: 9 };
    let count = sm.broadcast_except(2, &msg);
    assert_eq!(count, 2);
    assert_eq!(queue_of(&sm, 1).len(), 1);
    assert_eq!(queue_of(&sm, 2).len(), 0);
    assert_eq!(queue_of(&sm, 3).len(), 1);
}

#[test]
fn send_to_unknown_leaves_queues_unchanged() {
    let mut sm = SessionManager::new();
    sm.add_session(GameSession::new(1, b"a".to_vec())).unwrap();
    let r = sm.send_to_player(42, ServerMessage::PlayerLeft { player_id: 9 });
    assert_eq!(r, Err(RegistryError::PlayerNotFound));
    assert_eq!(queue_of(&sm, 1).len(), 0);
}

#[test]
fn duplicate_session_is_refused() {
    let mut sm = SessionManager::new();
    sm.add_session(GameSession::new(1, b"a".to_vec())).unwrap();
    let r = sm.add_session(GameSession::new(1, b"a2".to_vec()));
    assert_eq!(r, Err(RegistryError::DuplicateSession));
    assert_eq!(sm.sessions.len(), 1);
}

#[test]
fn whisper_delivers_and_echoes() {
    let (mut ctx_a, mut sm, mut world) = fresh();
    let mut ctx_b = ConnectionContext::new();
    let a = login(&mut ctx_a, &mut sm, &mut world, "alice");
    let b = login(&mut ctx_b, &mut sm, &mut world, "bob");
    let replies = process_message(&mut ctx_a, &mut sm, &mut world, ClientMessage::ChatMessage {
        channel: ChatChannel::Whisper,
        message: b"psst".to_vec(),
        target_id: Some(b),
    });
    let expected = ServerMessage::ChatMessage {
        channel: ChatChannel::Whisper,
        message: b"psst".to_vec(),
        from_player: b"alice".to_vec(),
    };
    // one frame to the target
    assert_eq!(queue_of(&sm, b), vec![encode_server_message(&expected)]);
    // the sender's queue is untouched; the echo is a direct reply
    assert_eq!(queue_of(&sm, a).len(), 0);
    assert_eq!(replies, vec![expected]);
}

#[test]
fn whisper_without_target_yields_one_chat_error() {
    let (mut ctx, mut sm, mut world) = fresh();
    let a = login(&mut ctx, &mut sm, &mut world, "alice");
    let replies = process_message(&mut ctx, &mut sm, &mut world, ClientMessage::ChatMessage {
        channel: ChatChannel::Whisper,
        message: b"psst".to_vec(),
        target_id: None,
    });
    assert_eq!(replies, vec![ServerMessage::ChatError {
        reason: b"Whisper requires target player ID".to_vec(),
    }]);
    assert_eq!(queue_of(&sm, a).len(), 0);
}

#[test]
fn whisper_to_unknown_target_reports_not_found() {
    let (mut ctx, mut sm, mut world) = fresh();
    let a = login(&mut ctx, &mut sm, &mut world, "alice");
    let replies = process_message(&mut ctx, &mut sm, &mut world, ClientMessage::ChatMessage {
        channel: ChatChannel::Whisper,
        message: b"psst".to_vec(),
        target_id: Some(a.wrapping_add(1)),
    });
    assert_eq!(replies, vec![ServerMessage::ChatError {
        reason: b"Player not found".to_vec(),
    }]);
    assert_eq!(queue_of(&sm, a).len(), 0);
}

#[test]
fn global_chat_fans_out_to_everyone_else() {
    let (mut ctx_a, mut sm, mut world) = fresh();
    let mut ctx_b = ConnectionContext::new();
    let a = login(&mut ctx_a, &mut sm, &mut world, "alice");
    let b = login(&mut ctx_b, &mut sm, &mut world, "bob");
    let replies = process_message(&mut ctx_a, &mut sm, &mut world, ClientMessage::ChatMessage {
        channel: ChatChannel::Global,
        message: b"hi all".to_vec(),
        target_id: None,
    });
    assert!(replies.is_empty());
    let expected = ServerMessage::ChatMessage {
        channel: ChatChannel::Global,
        message: b"hi all".to_vec(),
        from_player: b"alice".to_vec(),
    };
    assert_eq!(queue_of(&sm, b), vec![encode_server_message(&expected)]);
    assert_eq!(queue_of(&sm, a).len(), 0);
}

#[test]
fn two_clients_may_share_a_username_and_moves_fan_out() {
    // Scenario: alice logs in twice from two connections; the first moves
    // and only the second receives the transform update.
    let (mut ctx_a, mut sm, mut world) = fresh();
    let mut ctx_b = ConnectionContext::new();
    let a = login(&mut ctx_a, &mut sm, &mut world, "alice");
    let b = login(&mut ctx_b, &mut sm, &mut world, "alice");
    assert_ne!(a, b);
    assert_eq!(sm.sessions.len(), 2);
    assert_eq!(world.player_count(), 2);

    let transform = Transform {
        position: Vector3 {
            x: 10.0f32.to_bits(),
            y: 0.0f32.to_bits(),
            z: 5.0f32.to_bits(),
        },
        rotation: Quaternion {
            x: 0.0f32.to_bits(),
            y: 0.0f32.to_bits(),
            z: 0.0f32.to_bits(),
            w: 1.0f32.to_bits(),
        },
        scale: Vector3 { x: 1.0f32.to_bits(), y: 1.0f32.to_bits(), z: 1.0f32.to_bits() },
    };
    let velocity = Vector3 { x: 0.0f32.to_bits(), y: 0.0f32.to_bits(), z: 0.0f32.to_bits() };
    let frame = encode_client_message(&ClientMessage::PlayerMove {
        transform,
        velocity,
        timestamp: 1,
    });
    let replies = process_frame(&mut ctx_a, &mut sm, &mut world, frame.as_slice());
    assert!(replies.is_empty());

    let expected = ServerMessage::PlayerTransformUpdate { player_id: a, transform, velocity };
    assert_eq!(queue_of(&sm, b), vec![encode_server_message(&expected)]);
    assert_eq!(queue_of(&sm, a).len(), 0);
    // position truth was updated
    let state = world.get_player_state(a).unwrap();
    assert_eq!(state.transform, transform);
}

#[test]
fn move_before_login_is_ignored() {
    let (mut ctx, mut sm, mut world) = fresh();
    let replies = process_message(&mut ctx, &mut sm, &mut world, ClientMessage::PlayerMove {
        transform: Transform::default(),
        velocity: Vector3::default(),
        timestamp: 0,
    });
    assert!(replies.is_empty());
    assert_eq!(sm.sessions.len(), 0);
    assert_eq!(world.player_count(), 0);
}

#[test]
fn undecodable_frame_is_dropped() {
    let (mut ctx, mut sm, mut world) = fresh();
    let replies = process_frame(&mut ctx, &mut sm, &mut world, &[250, 0, 0, 0, 1, 2, 3]);
    assert!(replies.is_empty());
    assert_eq!(ctx.state, ConnectionState::Unauthenticated);
    assert_eq!(sm.sessions.len(), 0);
}

#[test]
fn disconnect_removes_session_and_state_together() {
    let (mut ctx, mut sm, mut world) = fresh();
    let id = login(&mut ctx, &mut sm, &mut world, "alice");
    handle_disconnect(&mut ctx, &mut sm, &mut world);
    assert_eq!(ctx.state, ConnectionState::Closed);
    assert_eq!(ctx.player_id, None);
    assert_eq!(sm.sessions.len(), 0);
    assert_eq!(world.player_count(), 0);
    assert!(world.get_player_state(id).is_none());
}

#[test]
fn disconnect_before_login_changes_nothing() {
    let (mut ctx, mut sm, mut world) = fresh();
    handle_disconnect(&mut ctx, &mut sm, &mut world);
    assert_eq!(ctx.state, ConnectionState::Closed);
    assert_eq!(sm.sessions.len(), 0);
}

#[test]
fn login_on_authenticated_connection_is_ignored() {
    let (mut ctx, mut sm, mut world) = fresh();
    login(&mut ctx, &mut sm, &mut world, "alice");
    let replies = process_message(&mut ctx, &mut sm, &mut world, ClientMessage::Login {
        username: b"eve".to_vec(),
        auth_token: b"t".to_vec(),
    });
    assert!(replies.is_empty());
    assert_eq!(sm.sessions.len(), 1);
    assert_eq!(world.player_count(), 1);
}

#[test]
fn heartbeat_and_reserved_messages_are_noops() {
    let (mut ctx, mut sm, mut world) = fresh();
    login(&mut ctx, &mut sm, &mut world, "alice");
    for msg in [
        ClientMessage::Heartbeat,
        ClientMessage::UseItem { item_id: 1, target_id: None },
        ClientMessage::Attack { target_id: 2, ability_id: 3 },
    ] {
        let replies = process_message(&mut ctx, &mut sm, &mut world, msg);
        assert!(replies.is_empty());
    }
    assert_eq!(sm.sessions.len(), 1);
    assert_eq!(world.player_count(), 1);
}

#[test]
fn world_update_returns_previous_transform() {
    let mut world = GameWorld::new();
    world.add_player(7, b"alice".to_vec(), Transform::default());
    let mut t = Transform::default();
    t.position.x = 3.5f32.to_bits();
    let prev = world.update_player_position(7, t);
    assert_eq!(prev, Some(Transform::default()));
    assert_eq!(world.get_player_state(7).unwrap().transform, t);
    assert_eq!(world.update_player_position(8, t), None);
}

#[test]
fn players_in_zone_returns_all_in_flat_world() {
    let mut world = GameWorld::new();
    world.add_player(1, b"a".to_vec(), Transform::default());
    world.add_player(2, b"b".to_vec(), Transform::default());
    let in_zone = world.get_players_in_zone(1);
    assert_eq!(in_zone.len(), 2);
    assert_eq!(in_zone[0].0, 1);
    assert_eq!(in_zone[1].0, 2);
    assert!(world.get_players_in_zone(2).is_empty());
}

#[test]
fn session_queue_drains_in_order() {
    let mut s = GameSession::new(1, b"a".to_vec());
    s.send_serialized(vec![1]);
    s.send_serialized(vec![2, 3]);
    let drained = s.take_outbound();
    assert_eq!(drained, vec![vec![1], vec![2, 3]]);
    assert!(s.take_outbound().is_empty());
}

#[test]
fn channel_labels() {
    assert_eq!(format_channel(&ChatChannel::Global), "\u{1F30D} Global");
    assert_eq!(format_channel(&ChatChannel::Local), "\u{1F4CD} Local");
    assert_eq!(format_channel(&ChatChannel::Party), "\u{1F465} Party");
    assert_eq!(format_channel(&ChatChannel::Guild), "\u{2694}\u{FE0F} Guild");
    assert_eq!(format_channel(&ChatChannel::Whisper), "\u{1F92B} Whisper");
}

#[test]
fn default_transform_is_spawn_pose() {
    let t = Transform::default();
    assert_eq!(f32::from_bits(t.position.x), 0.0);
    assert_eq!(f32::from_bits(t.rotation.w), 1.0);
    assert_eq!(f32::from_bits(t.scale.y), 1.0);
}

#[test]
fn default_config_values() {
    let c = mmo_server::config::ServerConfig::default();
    assert_eq!(c.server.host, "127.0.0.1");
    assert_eq!(c.server.port, 8080);
    assert_eq!(c.server.max_players, 1000);
    assert_eq!(c.game.world.name, "Aethelgard");
    assert_eq!(c.logging.level, "info");
}

#[test]
fn get_session_copies_identity_without_frames() {
    let mut sm = SessionManager::new();
    let mut s = GameSession::new(5, b"alice".to_vec());
    s.send_serialized(vec![9, 9]);
    sm.add_session(s).unwrap();
    let copy = sm.get_session(5).unwrap();
    assert_eq!(copy.player_id, 5);
    assert_eq!(copy.username, b"alice".to_vec());
    assert!(copy.outbound.is_empty());
    assert!(sm.get_session(6).is_none());
    // the registry still holds the queued frame
    assert_eq!(queue_of(&sm, 5), vec![vec![9, 9]]);
}

#[test]
fn remove_session_returns_the_session() {
    let mut sm = SessionManager::new();
    sm.add_session(GameSession::new(5, b"alice".to_vec())).unwrap();
    let removed = sm.remove_session(5).unwrap();
    assert_eq!(removed.player_id, 5);
    assert!(sm.sessions.is_empty());
    assert!(sm.remove_session(5).is_none());
}

#[test]
fn udp_endpoint_is_settable() {
    let mut s = GameSession::new(1, b"a".to_vec());
    assert_eq!(s.get_udp_addr(), None);
    let ep = mmo_server::session::UdpEndpoint { ip: 0x7f00_0001, port: 9000 };
    s.set_udp_addr(ep);
    assert_eq!(s.get_udp_addr(), Some(ep));
}

#[test]
fn add_player_replaces_an_existing_entry() {
    let mut world = GameWorld::new();
    world.add_player(1, b"a".to_vec(), Transform::default());
    let mut t = Transform::default();
    t.position.z = 4.0f32.to_bits();
    world.add_player(1, b"a2".to_vec(), t);
    assert_eq!(world.player_count(), 1);
    let state = world.get_player_state(1).unwrap();
    assert_eq!(state.username, b"a2".to_vec());
    assert_eq!(state.transform, t);
    assert_eq!(state.zone_id, 1);
}

#[test]
fn remove_player_returns_state() {
    let mut world = GameWorld::new();
    world.add_player(1, b"a".to_vec(), Transform::default());
    let state = world.remove_player(1).unwrap();
    assert_eq!(state.username, b"a".to_vec());
    assert_eq!(world.player_count(), 0);
    assert!(world.remove_player(1).is_none());
}
