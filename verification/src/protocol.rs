//! Data model of the wire protocol.
//!
//! Positions, rotations and scales travel as IEEE-754 single-precision bit
//! patterns and are carried here as `u32` fields; only the unverified edge
//! of the server turns them into floating-point values.  Text travels as
//! length-prefixed byte strings and is carried as `Vec<u8>`.

use vstd::prelude::*;

verus! {

/// Identifier of a player: the 128 bits of a version-4 UUID, minted at
/// login and never reused.
pub type PlayerId = u128;

/// Bit pattern of the single-precision float `0.0`.
pub const F32_ZERO_BITS: u32 = 0x0000_0000;

/// Bit pattern of the single-precision float `1.0`.
pub const F32_ONE_BITS: u32 = 0x3F80_0000;

/// A 3-component vector; each component is an `f32` bit pattern.
#[derive(Clone, Copy, PartialEq, Eq, Structural, Debug)]
pub struct Vector3 {
    pub x: u32,
    pub y: u32,
    pub z: u32,
}

/// A 4-component quaternion; each component is an `f32` bit pattern.
#[derive(Clone, Copy, PartialEq, Eq, Structural, Debug)]
pub struct Quaternion {
    pub x: u32,
    pub y: u32,
    pub z: u32,
    pub w: u32,
}

/// Position, rotation and scale of one entity.
#[derive(Clone, Copy, PartialEq, Eq, Structural, Debug)]
pub struct Transform {
    pub position: Vector3,
    pub rotation: Quaternion,
    pub scale: Vector3,
}

impl Default for Vector3 {
    /// The zero vector.
    fn default() -> (r: Self)
        ensures
            r == (Vector3 { x: F32_ZERO_BITS, y: F32_ZERO_BITS, z: F32_ZERO_BITS }),
    {
        Vector3 { x: F32_ZERO_BITS, y: F32_ZERO_BITS, z: F32_ZERO_BITS }
    }
}

impl Default for Quaternion {
    /// The identity rotation.
    fn default() -> (r: Self)
        ensures
            r == (Quaternion { x: F32_ZERO_BITS, y: F32_ZERO_BITS, z: F32_ZERO_BITS, w: F32_ONE_BITS }),
    {
        Quaternion { x: F32_ZERO_BITS, y: F32_ZERO_BITS, z: F32_ZERO_BITS, w: F32_ONE_BITS }
    }
}

/// The spawn transform: origin, identity rotation, unit scale.
pub open spec fn default_transform() -> Transform {
    Transform {
        position: Vector3 { x: F32_ZERO_BITS, y: F32_ZERO_BITS, z: F32_ZERO_BITS },
        rotation: Quaternion { x: F32_ZERO_BITS, y: F32_ZERO_BITS, z: F32_ZERO_BITS, w: F32_ONE_BITS },
        scale: Vector3 { x: F32_ONE_BITS, y: F32_ONE_BITS, z: F32_ONE_BITS },
    }
}

impl Default for Transform {
    /// Origin position, identity rotation, unit scale.
    fn default() -> (r: Self)
        ensures
            r == default_transform(),
    {
        Transform {
            position: Vector3 { x: F32_ZERO_BITS, y: F32_ZERO_BITS, z: F32_ZERO_BITS },
            rotation: Quaternion { x: F32_ZERO_BITS, y: F32_ZERO_BITS, z: F32_ZERO_BITS, w: F32_ONE_BITS },
            scale: Vector3 { x: F32_ONE_BITS, y: F32_ONE_BITS, z: F32_ONE_BITS },
        }
    }
}

/// Chat delivery scope.
#[derive(Clone, Copy, PartialEq, Eq, Structural, Debug)]
pub enum ChatChannel {
    Global,
    Local,
    Party,
    Guild,
    Whisper,
}

/// Emote-like actions a client may request.
#[derive(Clone, Copy, PartialEq, Eq, Structural, Debug)]
pub enum PlayerAction {
    Jump,
    Interact,
    Sit,
    Dance,
    Craft,
}

/// Character archetype.
#[derive(Clone, Copy, PartialEq, Eq, Structural, Debug)]
pub enum PlayerClass {
    Warrior,
    Mage,
    Archer,
    Rogue,
}

/// Combat attributes of one character.
#[derive(Clone, Copy, PartialEq, Eq, Structural, Debug)]
pub struct PlayerStats {
    pub health: i32,
    pub max_health: i32,
    pub mana: i32,
    pub max_mana: i32,
    pub strength: i32,
    pub agility: i32,
    pub intelligence: i32,
}

/// Messages a client sends to the server.
#[derive(Clone, PartialEq, Eq, Debug)]
pub enum ClientMessage {
    Login { username: Vec<u8>, auth_token: Vec<u8> },
    PlayerMove { transform: Transform, velocity: Vector3, timestamp: u64 },
    PlayerAction { action_type: PlayerAction, target_id: Option<PlayerId>, direction: Option<Vector3> },
    ChatMessage { channel: ChatChannel, message: Vec<u8>, target_id: Option<PlayerId> },
    UseItem { item_id: u128, target_id: Option<PlayerId> },
    Attack { target_id: PlayerId, ability_id: u32 },
    Heartbeat,
}

/// Messages the server sends to a client.
#[derive(Clone, PartialEq, Eq, Debug)]
pub enum ServerMessage {
    LoginSuccess { player_id: PlayerId, username: Vec<u8> },
    LoginError { reason: Vec<u8> },
    PlayerUpdate { player_id: PlayerId, transform: Transform },
    WorldState { players: Vec<PlayerUpdate>, npcs: Vec<NpcUpdate>, objects: Vec<ObjectUpdate>, timestamp: u64 },
    PlayerJoined { player_data: PlayerData },
    PlayerLeft { player_id: PlayerId },
    PlayerTransformUpdate { player_id: PlayerId, transform: Transform, velocity: Vector3 },
    ChatMessage { channel: ChatChannel, message: Vec<u8>, from_player: Vec<u8> },
    ChatError { reason: Vec<u8> },
    CombatEvent { source_id: PlayerId, target_id: PlayerId, damage: i32, ability_id: u32 },
    HeartbeatResponse { server_time: u64 },
}

/// Full description of one player, sent when a player joins.
#[derive(Clone, PartialEq, Eq, Debug)]
pub struct PlayerData {
    pub id: PlayerId,
    pub name: Vec<u8>,
    pub level: u32,
    pub class: PlayerClass,
    pub transform: Transform,
    pub stats: PlayerStats,
}

/// Per-player entry of a world snapshot.
#[derive(Clone, PartialEq, Eq, Debug)]
pub struct PlayerUpdate {
    pub player_id: PlayerId,
    pub transform: Transform,
    pub velocity: Vector3,
    pub animation: Option<Vec<u8>>,
    pub health: i32,
}

/// Per-NPC entry of a world snapshot.
#[derive(Clone, Copy, PartialEq, Eq, Structural, Debug)]
pub struct NpcUpdate {
    pub npc_id: u128,
    pub transform: Transform,
    pub health: i32,
}

/// Per-object entry of a world snapshot.
#[derive(Clone, PartialEq, Eq, Debug)]
pub struct ObjectUpdate {
    pub object_id: u128,
    pub transform: Transform,
    pub state: Vec<u8>,
}

/// Mathematical value of a [`PlayerData`].
pub struct PlayerDataV {
    pub id: PlayerId,
    pub name: Seq<u8>,
    pub level: u32,
    pub class: PlayerClass,
    pub transform: Transform,
    pub stats: PlayerStats,
}

/// Mathematical value of a [`PlayerUpdate`].
pub struct PlayerUpdateV {
    pub player_id: PlayerId,
    pub transform: Transform,
    pub velocity: Vector3,
    pub animation: Option<Seq<u8>>,
    pub health: i32,
}

/// Mathematical value of an [`ObjectUpdate`].
pub struct ObjectUpdateV {
    pub object_id: u128,
    pub transform: Transform,
    pub state: Seq<u8>,
}

/// Mathematical value of a [`ClientMessage`].
pub enum ClientMessageV {
    Login { username: Seq<u8>, auth_token: Seq<u8> },
    PlayerMove { transform: Transform, velocity: Vector3, timestamp: u64 },
    PlayerAction { action_type: PlayerAction, target_id: Option<PlayerId>, direction: Option<Vector3> },
    ChatMessage { channel: ChatChannel, message: Seq<u8>, target_id: Option<PlayerId> },
    UseItem { item_id: u128, target_id: Option<PlayerId> },
    Attack { target_id: PlayerId, ability_id: u32 },
    Heartbeat,
}

/// Mathematical value of a [`ServerMessage`].
pub enum ServerMessageV {
    LoginSuccess { player_id: PlayerId, username: Seq<u8> },
    LoginError { reason: Seq<u8> },
    PlayerUpdate { player_id: PlayerId, transform: Transform },
    WorldState { players: Seq<PlayerUpdateV>, npcs: Seq<NpcUpdate>, objects: Seq<ObjectUpdateV>, timestamp: u64 },
    PlayerJoined { player_data: PlayerDataV },
    PlayerLeft { player_id: PlayerId },
    PlayerTransformUpdate { player_id: PlayerId, transform: Transform, velocity: Vector3 },
    ChatMessage { channel: ChatChannel, message: Seq<u8>, from_player: Seq<u8> },
    ChatError { reason: Seq<u8> },
    CombatEvent { source_id: PlayerId, target_id: PlayerId, damage: i32, ability_id: u32 },
    HeartbeatResponse { server_time: u64 },
}

/// The mathematical values of a list of player entries.
pub open spec fn player_update_views(l: Seq<PlayerUpdate>) -> Seq<PlayerUpdateV> {
    Seq::new(l.len(), |k: int| l[k]@)
}

/// The mathematical values of a list of server messages.
pub open spec fn server_message_views(l: Seq<ServerMessage>) -> Seq<ServerMessageV> {
    Seq::new(l.len(), |k: int| l[k]@)
}

/// The mathematical values of a list of object entries.
pub open spec fn object_update_views(l: Seq<ObjectUpdate>) -> Seq<ObjectUpdateV> {
    Seq::new(l.len(), |k: int| l[k]@)
}

impl View for PlayerData {
    type V = PlayerDataV;

    open spec fn view(&self) -> PlayerDataV {
        PlayerDataV {
            id: self.id,
            name: self.name@,
            level: self.level,
            class: self.class,
            transform: self.transform,
            stats: self.stats,
        }
    }
}

impl View for PlayerUpdate {
    type V = PlayerUpdateV;

    open spec fn view(&self) -> PlayerUpdateV {
        PlayerUpdateV {
            player_id: self.player_id,
            transform: self.transform,
            velocity: self.velocity,
            animation: match self.animation {
                Option::Some(a) => Option::Some(a@),
                Option::None => Option::None,
            },
            health: self.health,
        }
    }
}

impl View for ObjectUpdate {
    type V = ObjectUpdateV;

    open spec fn view(&self) -> ObjectUpdateV {
        ObjectUpdateV { object_id: self.object_id, transform: self.transform, state: self.state@ }
    }
}

impl View for ClientMessage {
    type V = ClientMessageV;

    open spec fn view(&self) -> ClientMessageV {
        match self {
            ClientMessage::Login { username, auth_token } => ClientMessageV::Login {
                username: username@,
                auth_token: auth_token@,
            },
            ClientMessage::PlayerMove { transform, velocity, timestamp } => ClientMessageV::PlayerMove {
                transform: *transform,
                velocity: *velocity,
                timestamp: *timestamp,
            },
            ClientMessage::PlayerAction { action_type, target_id, direction } => ClientMessageV::PlayerAction {
                action_type: *action_type,
                target_id: *target_id,
                direction: *direction,
            },
            ClientMessage::ChatMessage { channel, message, target_id } => ClientMessageV::ChatMessage {
                channel: *channel,
                message: message@,
                target_id: *target_id,
            },
            ClientMessage::UseItem { item_id, target_id } => ClientMessageV::UseItem {
                item_id: *item_id,
                target_id: *target_id,
            },
            ClientMessage::Attack { target_id, ability_id } => ClientMessageV::Attack {
                target_id: *target_id,
                ability_id: *ability_id,
            },
            ClientMessage::Heartbeat => ClientMessageV::Heartbeat,
        }
    }
}

impl View for ServerMessage {
    type V = ServerMessageV;

    open spec fn view(&self) -> ServerMessageV {
        match self {
            ServerMessage::LoginSuccess { player_id, username } => ServerMessageV::LoginSuccess {
                player_id: *player_id,
                username: username@,
            },
            ServerMessage::LoginError { reason } => ServerMessageV::LoginError { reason: reason@ },
            ServerMessage::PlayerUpdate { player_id, transform } => ServerMessageV::PlayerUpdate {
                player_id: *player_id,
                transform: *transform,
            },
            ServerMessage::WorldState { players, npcs, objects, timestamp } => ServerMessageV::WorldState {
                players: player_update_views(players@),
                npcs: npcs@,
                objects: object_update_views(objects@),
                timestamp: *timestamp,
            },
            ServerMessage::PlayerJoined { player_data } => ServerMessageV::PlayerJoined {
                player_data: player_data@,
            },
            ServerMessage::PlayerLeft { player_id } => ServerMessageV::PlayerLeft { player_id: *player_id },
            ServerMessage::PlayerTransformUpdate { player_id, transform, velocity } => ServerMessageV::PlayerTransformUpdate {
                player_id: *player_id,
                transform: *transform,
                velocity: *velocity,
            },
            ServerMessage::ChatMessage { channel, message, from_player } => ServerMessageV::ChatMessage {
                channel: *channel,
                message: message@,
                from_player: from_player@,
            },
            ServerMessage::ChatError { reason } => ServerMessageV::ChatError { reason: reason@ },
            ServerMessage::CombatEvent { source_id, target_id, damage, ability_id } => ServerMessageV::CombatEvent {
                source_id: *source_id,
                target_id: *target_id,
                damage: *damage,
                ability_id: *ability_id,
            },
            ServerMessage::HeartbeatResponse { server_time } => ServerMessageV::HeartbeatResponse {
                server_time: *server_time,
            },
        }
    }
}

/// Human-readable label of a chat channel, as shown in the server log.
pub fn format_channel(channel: &ChatChannel) -> (r: String)
    ensures
        r@ == match channel {
            ChatChannel::Global => "\u{1F30D} Global"@,
            ChatChannel::Local => "\u{1F4CD} Local"@,
            ChatChannel::Party => "\u{1F465} Party"@,
            ChatChannel::Guild => "\u{2694}\u{FE0F} Guild"@,
            ChatChannel::Whisper => "\u{1F92B} Whisper"@,
        },
{
    match channel {
        ChatChannel::Global => String::from_str("\u{1F30D} Global"),
        ChatChannel::Local => String::from_str("\u{1F4CD} Local"),
        ChatChannel::Party => String::from_str("\u{1F465} Party"),
        ChatChannel::Guild => String::from_str("\u{2694}\u{FE0F} Guild"),
        ChatChannel::Whisper => String::from_str("\u{1F92B} Whisper"),
    }
}

} // verus!
