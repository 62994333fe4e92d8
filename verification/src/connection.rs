//! The per-connection protocol state machine.
//!
//! A connection starts unauthenticated, becomes authenticated on a
//! successful login, and closes for good when its socket does.  The
//! functions here take one decoded frame (or the disconnect event) and the
//! shared registries, apply the transition, and return the direct replies
//! owed to this connection; frames for other connections land in their
//! sessions' outbound queues.  The transport edge feeds frames in arrival
//! order and writes out replies and queued frames.

use vstd::prelude::*;
use vstd::slice::slice_to_vec;
use vstd::string::StrSliceExecFns;
use crate::protocol::{
    server_message_views, ChatChannel, ClientMessage, ClientMessageV, PlayerId, ServerMessage,
    ServerMessageV, Transform, Vector3,
};
use crate::protocol::default_transform;
use crate::session::GameSession;
use crate::session_manager::SessionManager;
use crate::world::{GameWorld, PlayerStateV};
use crate::wire::enc_server;
use crate::codec::decode_client_message;

verus! {

/// Where a connection stands in its lifecycle.
#[derive(Clone, Copy, PartialEq, Eq, Structural, Debug)]
pub enum ConnectionState {
    Unauthenticated,
    Authenticated,
    Closed,
}

/// Per-connection state: the lifecycle stage and, once logged in, the
/// player this connection speaks for.
#[derive(Clone, Copy, PartialEq, Eq, Structural, Debug)]
pub struct ConnectionContext {
    pub state: ConnectionState,
    pub player_id: Option<PlayerId>,
}

impl ConnectionContext {
    /// A player id is held exactly in the authenticated state.
    pub open spec fn wf(self) -> bool {
        &&& (self.state is Authenticated) <==> (self.player_id is Some)
        &&& (self.state is Closed) ==> (self.player_id is None)
    }

    pub fn new() -> (r: Self)
        ensures
            r.state is Unauthenticated,
            r.player_id is None,
            r.wf(),
    {
        ConnectionContext { state: ConnectionState::Unauthenticated, player_id: None }
    }
}

/// A session exists in the registry exactly when a state exists in the
/// world for the same player, and the two stay equal in number.
pub open spec fn consistent(sm: SessionManager, world: GameWorld) -> bool {
    &&& sm.sessions@.len() == world.players@.len()
    &&& forall|id: PlayerId|
        #![trigger sm.contains_player(id)]
        #![trigger world.contains_player(id)]
        sm.contains_player(id) <==> world.contains_player(id)
}

/// A username the login stub accepts: non-empty, at most 32 bytes, all
/// printable ASCII.
pub open spec fn valid_username(s: Seq<u8>) -> bool {
    &&& 1 <= s.len() <= 32
    &&& forall|i: int| 0 <= i < s.len() ==> 0x20 <= #[trigger] s[i] <= 0x7e
}

/// Checks a username against the login rules.
pub fn validate_username(s: &Vec<u8>) -> (r: bool)
    ensures
        r == valid_username(s@),
{
    let n = s.len();
    if n == 0 || n > 32 {
        return false;
    }
    let mut i: usize = 0;
    while i < n
        invariant
            i <= n,
            n == s@.len(),
            1 <= n <= 32,
            forall|k: int| 0 <= k < i ==> 0x20 <= #[trigger] s@[k] <= 0x7e,
        decreases n - i,
    {
        let b = s[i];
        if b < 0x20 || b > 0x7e {
            return false;
        }
        i = i + 1;
    }
    true
}

/// The bytes of an ASCII string, character by character.
pub open spec fn ascii_view(s: Seq<char>) -> Seq<u8> {
    Seq::new(s.len(), |i: int| s[i] as u8)
}

pub open spec fn invalid_username_reason() -> Seq<u8> {
    ascii_view("Invalid username"@)
}

pub open spec fn player_not_found_reason() -> Seq<u8> {
    ascii_view("Player not found"@)
}

pub open spec fn whisper_needs_target_reason() -> Seq<u8> {
    ascii_view("Whisper requires target player ID"@)
}

fn reason_invalid_username() -> (r: Vec<u8>)
    ensures
        r@ == invalid_username_reason(),
{
    let s = "Invalid username";
    proof {
        reveal_strlit("Invalid username");
        assert(vstd::string::is_ascii(s));
        vstd::string::is_ascii_spec_bytes(s);
    }
    let r = s.as_bytes_vec();
    proof {
        assert(r@ =~= invalid_username_reason());
    }
    r
}

fn reason_player_not_found() -> (r: Vec<u8>)
    ensures
        r@ == player_not_found_reason(),
{
    let s = "Player not found";
    proof {
        reveal_strlit("Player not found");
        assert(vstd::string::is_ascii(s));
        vstd::string::is_ascii_spec_bytes(s);
    }
    let r = s.as_bytes_vec();
    proof {
        assert(r@ =~= player_not_found_reason());
    }
    r
}

fn reason_whisper_needs_target() -> (r: Vec<u8>)
    ensures
        r@ == whisper_needs_target_reason(),
{
    let s = "Whisper requires target player ID";
    proof {
        reveal_strlit("Whisper requires target player ID");
        assert(vstd::string::is_ascii(s));
        vstd::string::is_ascii_spec_bytes(s);
    }
    let r = s.as_bytes_vec();
    proof {
        assert(r@ =~= whisper_needs_target_reason());
    }
    r
}

fn copy_bytes(v: &Vec<u8>) -> (r: Vec<u8>)
    ensures
        r@ == v@,
{
    slice_to_vec(v.as_slice())
}

/// Relies on uuid::Uuid::new_v4, which draws a fresh version-4 UUID from
/// the process random source; nothing is assumed of the value, so every
/// caller must handle an id that is already taken.
#[verifier::external_body]
fn mint_player_id() -> (r: PlayerId) {
    uuid::Uuid::new_v4().as_u128()
}

/// The username stored in the world for this player.
pub open spec fn username_of(world: GameWorld, player_id: PlayerId) -> Seq<u8> {
    let i = choose|i: int|
        0 <= i < world.players@.len() && #[trigger] world.players@[i].0 == player_id;
    world.players@[i].1@.username
}

/// The registry after a broadcast that skipped `exclude`: every other
/// session's queue gained exactly the encoding of `m`.
pub open spec fn broadcast_except_shape(
    sm0: SessionManager,
    sm1: SessionManager,
    exclude: PlayerId,
    m: ServerMessageV,
) -> bool {
    &&& sm1.sessions@.len() == sm0.sessions@.len()
    &&& forall|i: int|
        0 <= i < sm0.sessions@.len() ==> sm1.sessions@[i].same_identity(
            #[trigger] sm0.sessions@[i],
        ) && sm1.sessions@[i].queue() == (
        if sm0.sessions@[i].player_id == exclude {
            sm0.sessions@[i].queue()
        } else {
            sm0.sessions@[i].queue().push(enc_server(m))
        })
}

/// The registry after a targeted send: only `to`'s queue gained the
/// encoding of `m`.
pub open spec fn send_shape(
    sm0: SessionManager,
    sm1: SessionManager,
    to: PlayerId,
    m: ServerMessageV,
) -> bool {
    &&& sm1.sessions@.len() == sm0.sessions@.len()
    &&& forall|i: int|
        #![trigger sm0.sessions@[i]]
        0 <= i < sm0.sessions@.len() ==> (
        if sm0.sessions@[i].player_id == to {
            sm1.sessions@[i].same_identity(sm0.sessions@[i]) && sm1.sessions@[i].queue()
                == sm0.sessions@[i].queue().push(enc_server(m))
        } else {
            sm1.sessions@[i] == sm0.sessions@[i]
        })
}

/// What a login attempt does, given the id minted for it.
///
/// Login is honoured only in the unauthenticated state.  A malformed
/// username is answered with a login error and changes nothing.  On
/// success the registry and the world each gain exactly one entry, keyed
/// by the same new id, and the one reply is the login acknowledgement.
/// A minted id that is somehow already taken changes nothing.
pub open spec fn login_post(
    ctx0: ConnectionContext,
    sm0: SessionManager,
    world0: GameWorld,
    username: Seq<u8>,
    new_id: PlayerId,
    ctx1: ConnectionContext,
    sm1: SessionManager,
    world1: GameWorld,
    replies: Seq<ServerMessageV>,
) -> bool {
    if !(ctx0.state is Unauthenticated) {
        ctx1 == ctx0 && sm1 == sm0 && world1 == world0 && replies == Seq::<ServerMessageV>::empty()
    } else if !valid_username(username) {
        ctx1 == ctx0 && sm1 == sm0 && world1 == world0 && replies == seq![
            ServerMessageV::LoginError { reason: invalid_username_reason() },
        ]
    } else if sm0.contains_player(new_id) || world0.contains_player(new_id) {
        ctx1 == ctx0 && sm1 == sm0 && world1 == world0 && replies == Seq::<ServerMessageV>::empty()
    } else {
        &&& ctx1.state is Authenticated
        &&& ctx1.player_id == Some(new_id)
        &&& sm1.sessions@.len() == sm0.sessions@.len() + 1
        &&& forall|i: int| 0 <= i < sm0.sessions@.len() ==> #[trigger] sm1.sessions@[i]
            == sm0.sessions@[i]
        &&& sm1.sessions@.last().player_id == new_id
        &&& sm1.sessions@.last().username@ == username
        &&& sm1.sessions@.last().queue() == Seq::<Seq<u8>>::empty()
        &&& crate::world::entry_views(world1.players@) == crate::world::entry_views(
            world0.players@,
        ).push(
            (
                new_id,
                PlayerStateV {
                    username,
                    transform: default_transform(),
                    zone_id: world0.next_zone_id,
                },
            ),
        )
        &&& world1.next_zone_id == world0.next_zone_id
        &&& replies == seq![ServerMessageV::LoginSuccess { player_id: new_id, username }]
    }
}

/// What a movement frame does: in the authenticated state, with the mover
/// known to the world, the transform is replaced and the update is pushed
/// onto every other session's queue; otherwise nothing happens.
pub open spec fn move_post(
    ctx0: ConnectionContext,
    sm0: SessionManager,
    world0: GameWorld,
    transform: Transform,
    velocity: Vector3,
    sm1: SessionManager,
    world1: GameWorld,
) -> bool {
    if ctx0.state is Authenticated && world0.contains_player(ctx0.player_id->0) {
        let pid = ctx0.player_id->0;
        &&& exists|i: int|
            0 <= i < world0.players@.len() && #[trigger] world0.players@[i].0 == pid
                && crate::world::entry_views(world1.players@) == crate::world::entry_views(
                world0.players@,
            ).update(
                i,
                (
                    pid,
                    PlayerStateV {
                        username: world0.players@[i].1@.username,
                        transform,
                        zone_id: world0.players@[i].1.zone_id,
                    },
                ),
            )
        &&& world1.next_zone_id == world0.next_zone_id
        &&& broadcast_except_shape(
            sm0,
            sm1,
            pid,
            ServerMessageV::PlayerTransformUpdate { player_id: pid, transform, velocity },
        )
    } else {
        sm1 == sm0 && world1 == world0
    }
}

/// What a chat frame does.  Ordinary channels fan out to everyone but the
/// sender.  A whisper needs a target: delivered, it is echoed back to the
/// sender; without a target, or with an unknown one, the sender gets a
/// chat error and no queue changes.
pub open spec fn chat_post(
    ctx0: ConnectionContext,
    sm0: SessionManager,
    world0: GameWorld,
    channel: ChatChannel,
    message: Seq<u8>,
    target_id: Option<PlayerId>,
    sm1: SessionManager,
    world1: GameWorld,
    replies: Seq<ServerMessageV>,
) -> bool {
    &&& world1 == world0
    &&& if ctx0.state is Authenticated && world0.contains_player(ctx0.player_id->0) {
        let pid = ctx0.player_id->0;
        let chat = ServerMessageV::ChatMessage {
            channel,
            message,
            from_player: username_of(world0, pid),
        };
        if !(channel is Whisper) {
            broadcast_except_shape(sm0, sm1, pid, chat) && replies
                == Seq::<ServerMessageV>::empty()
        } else {
            match target_id {
                Some(target) => {
                    if sm0.contains_player(target) {
                        send_shape(sm0, sm1, target, chat) && replies == seq![chat]
                    } else {
                        sm1 == sm0 && replies == seq![
                            ServerMessageV::ChatError { reason: player_not_found_reason() },
                        ]
                    }
                },
                None => sm1 == sm0 && replies == seq![
                    ServerMessageV::ChatError { reason: whisper_needs_target_reason() },
                ],
            }
        }
    } else {
        sm1 == sm0 && replies == Seq::<ServerMessageV>::empty()
    }
}

/// What any one decoded message does to the connection, the registry and
/// the world, and which replies it earns.  For a login the minted id is
/// existentially quantified: it comes from the process random source.
pub open spec fn message_post(
    m: ClientMessageV,
    ctx0: ConnectionContext,
    sm0: SessionManager,
    world0: GameWorld,
    ctx1: ConnectionContext,
    sm1: SessionManager,
    world1: GameWorld,
    replies: Seq<ServerMessageV>,
) -> bool {
    match m {
        ClientMessageV::Login { username, auth_token } => exists|id: PlayerId|
            #![trigger login_post(ctx0, sm0, world0, username, id, ctx1, sm1, world1, replies)]
            login_post(ctx0, sm0, world0, username, id, ctx1, sm1, world1, replies),
        ClientMessageV::PlayerMove { transform, velocity, timestamp } => ctx1 == ctx0 && move_post(
            ctx0,
            sm0,
            world0,
            transform,
            velocity,
            sm1,
            world1,
        ) && replies == Seq::<ServerMessageV>::empty(),
        ClientMessageV::ChatMessage { channel, message, target_id } => ctx1 == ctx0 && chat_post(
            ctx0,
            sm0,
            world0,
            channel,
            message,
            target_id,
            sm1,
            world1,
            replies,
        ),
        _ => ctx1 == ctx0 && sm1 == sm0 && world1 == world0 && replies
            == Seq::<ServerMessageV>::empty(),
    }
}

/// Applies a login attempt under a given freshly minted id.
pub fn handle_login_with_id(
    ctx: &mut ConnectionContext,
    sm: &mut SessionManager,
    world: &mut GameWorld,
    username: Vec<u8>,
    new_id: PlayerId,
) -> (replies: Vec<ServerMessage>)
    requires
        old(ctx).wf(),
        old(sm).wf(),
        old(world).wf(),
        consistent(*old(sm), *old(world)),
    ensures
        final(ctx).wf(),
        final(sm).wf(),
        final(world).wf(),
        consistent(*final(sm), *final(world)),
        login_post(
            *old(ctx),
            *old(sm),
            *old(world),
            username@,
            new_id,
            *final(ctx),
            *final(sm),
            *final(world),
            server_message_views(replies@),
        ),
{
    let mut replies: Vec<ServerMessage> = Vec::new();
    proof {
        assert(server_message_views(replies@) =~= Seq::<ServerMessageV>::empty());
    }
    match ctx.state {
        ConnectionState::Unauthenticated => {
            if !validate_username(&username) {
                let msg = ServerMessage::LoginError { reason: reason_invalid_username() };
                let ghost mv = msg@;
                replies.push(msg);
                proof {
                    assert(server_message_views(replies@) =~= seq![mv]);
                }
                replies
            } else if sm.contains(new_id) || world.contains(new_id) {
                replies
            } else {
                world.add_player(new_id, copy_bytes(&username), Transform::default());
                let session = GameSession::new(new_id, copy_bytes(&username));
                let added = sm.add_session(session);
                proof {
                    assert(added is Ok);
                }
                ctx.state = ConnectionState::Authenticated;
                ctx.player_id = Some(new_id);
                let msg = ServerMessage::LoginSuccess { player_id: new_id, username };
                let ghost mv = msg@;
                replies.push(msg);
                proof {
                    assert(server_message_views(replies@) =~= seq![mv]);
                    assert(sm.sessions@.last().player_id == new_id);
                    lemma_consistent_after_insert(*old(sm), *old(world), *sm, *world, new_id);
                }
                replies
            }
        },
        _ => {
            replies
        },
    }
}

/// Two registries that grew by the same one key stay consistent.
proof fn lemma_consistent_after_insert(
    sm0: SessionManager,
    world0: GameWorld,
    sm1: SessionManager,
    world1: GameWorld,
    new_id: PlayerId,
)
    requires
        consistent(sm0, world0),
        sm1.sessions@.len() == sm0.sessions@.len() + 1,
        forall|i: int| 0 <= i < sm0.sessions@.len() ==> #[trigger] sm1.sessions@[i]
            == sm0.sessions@[i],
        sm1.sessions@.last().player_id == new_id,
        crate::world::entry_views(world1.players@).len() == crate::world::entry_views(
            world0.players@,
        ).len() + 1,
        forall|i: int|
            0 <= i < world0.players@.len() ==> #[trigger] crate::world::entry_views(
                world1.players@,
            )[i] == crate::world::entry_views(world0.players@)[i],
        crate::world::entry_views(world1.players@).last().0 == new_id,
    ensures
        consistent(sm1, world1),
{
    assert(world1.players@.len() == world0.players@.len() + 1);
    assert forall|id: PlayerId| sm1.contains_player(id) implies world1.contains_player(id) by {
        let i = choose|i: int|
            0 <= i < sm1.sessions@.len() && #[trigger] sm1.sessions@[i].player_id == id;
        if i < sm0.sessions@.len() {
            assert(sm0.sessions@[i].player_id == id);
            assert(sm0.contains_player(id));
            assert(world0.contains_player(id));
            let j = choose|j: int|
                0 <= j < world0.players@.len() && #[trigger] world0.players@[j].0 == id;
            assert(crate::world::entry_views(world1.players@)[j].0 == id);
            assert(world1.players@[j].0 == id);
        } else {
            assert(world1.players@[world0.players@.len() as int].0 == new_id);
        }
    }
    assert forall|id: PlayerId| world1.contains_player(id) implies sm1.contains_player(id) by {
        let i = choose|i: int|
            0 <= i < world1.players@.len() && #[trigger] world1.players@[i].0 == id;
        assert(crate::world::entry_views(world1.players@)[i].0 == id);
        if i < world0.players@.len() {
            assert(crate::world::entry_views(world0.players@)[i].0 == id);
            assert(world0.players@[i].0 == id);
            assert(world0.contains_player(id));
            assert(sm0.contains_player(id));
            let j = choose|j: int|
                0 <= j < sm0.sessions@.len() && #[trigger] sm0.sessions@[j].player_id == id;
            assert(sm1.sessions@[j].player_id == id);
        } else {
            assert(sm1.sessions@.last().player_id == id);
        }
    }
}

/// Applies a movement frame: position truth first, then the fan-out to
/// everyone but the mover.
pub fn handle_player_move(
    ctx: &ConnectionContext,
    sm: &mut SessionManager,
    world: &mut GameWorld,
    transform: Transform,
    velocity: Vector3,
)
    requires
        ctx.wf(),
        old(sm).wf(),
        old(world).wf(),
        consistent(*old(sm), *old(world)),
    ensures
        final(sm).wf(),
        final(world).wf(),
        consistent(*final(sm), *final(world)),
        move_post(*ctx, *old(sm), *old(world), transform, velocity, *final(sm), *final(world)),
{
    match ctx.player_id {
        Some(player_id) => {
            match world.update_player_position(player_id, transform) {
                Some(_) => {
                    let update = ServerMessage::PlayerTransformUpdate {
                        player_id,
                        transform,
                        velocity,
                    };
                    sm.broadcast_except(player_id, &update);
                    proof {
                        lemma_consistent_same_keys(*old(sm), *old(world), *sm, *world);
                    }
                },
                None => {},
            }
        },
        None => {},
    }
}

/// Consistency survives any step that keeps every key on both sides.
proof fn lemma_consistent_same_keys(
    sm0: SessionManager,
    world0: GameWorld,
    sm1: SessionManager,
    world1: GameWorld,
)
    requires
        consistent(sm0, world0),
        sm1.sessions@.len() == sm0.sessions@.len(),
        forall|i: int|
            0 <= i < sm0.sessions@.len() ==> #[trigger] sm1.sessions@[i].player_id
                == sm0.sessions@[i].player_id,
        world1.players@.len() == world0.players@.len(),
        forall|i: int|
            0 <= i < world0.players@.len() ==> #[trigger] world1.players@[i].0
                == world0.players@[i].0,
    ensures
        consistent(sm1, world1),
{
    assert forall|id: PlayerId| sm1.contains_player(id) implies world1.contains_player(id) by {
        let i = choose|i: int|
            0 <= i < sm1.sessions@.len() && #[trigger] sm1.sessions@[i].player_id == id;
        assert(sm0.sessions@[i].player_id == id);
        assert(sm0.contains_player(id));
        assert(world0.contains_player(id));
        let j = choose|j: int|
            0 <= j < world0.players@.len() && #[trigger] world0.players@[j].0 == id;
        assert(world1.players@[j].0 == id);
    }
    assert forall|id: PlayerId| world1.contains_player(id) implies sm1.contains_player(id) by {
        let i = choose|i: int|
            0 <= i < world1.players@.len() && #[trigger] world1.players@[i].0 == id;
        assert(world0.players@[i].0 == id);
        assert(world0.contains_player(id));
        assert(sm0.contains_player(id));
        let j = choose|j: int|
            0 <= j < sm0.sessions@.len() && #[trigger] sm0.sessions@[j].player_id == id;
        assert(sm1.sessions@[j].player_id == id);
    }
}

/// Applies a chat frame: broadcast for the open channels, targeted
/// delivery plus echo for a whisper.
pub fn handle_chat(
    ctx: &ConnectionContext,
    sm: &mut SessionManager,
    world: &GameWorld,
    channel: ChatChannel,
    message: Vec<u8>,
    target_id: Option<PlayerId>,
) -> (replies: Vec<ServerMessage>)
    requires
        ctx.wf(),
        old(sm).wf(),
        world.wf(),
        consistent(*old(sm), *world),
    ensures
        final(sm).wf(),
        consistent(*final(sm), *world),
        chat_post(
            *ctx,
            *old(sm),
            *world,
            channel,
            message@,
            target_id,
            *final(sm),
            *world,
            server_message_views(replies@),
        ),
{
    let mut replies: Vec<ServerMessage> = Vec::new();
    proof {
        assert(server_message_views(replies@) =~= Seq::<ServerMessageV>::empty());
    }
    let player_id = match ctx.player_id {
        Some(player_id) => player_id,
        None => {
            return replies;
        },
    };
    let state = match world.get_player_state(player_id) {
        Some(state) => state,
        None => {
            return replies;
        },
    };
    proof {
        let i = choose|i: int|
            0 <= i < world.players@.len() && #[trigger] world.players@[i].0 == player_id;
        assert(state@.username == username_of(*world, player_id));
    }
    let ghost chat_v = ServerMessageV::ChatMessage {
        channel,
        message: message@,
        from_player: username_of(*world, player_id),
    };
    let is_whisper = match channel {
        ChatChannel::Whisper => true,
        _ => false,
    };
    if !is_whisper {
        let chat = ServerMessage::ChatMessage { channel, message, from_player: state.username };
        proof {
            assert(chat@ == chat_v);
        }
        sm.broadcast_except(player_id, &chat);
        proof {
            lemma_consistent_same_keys(*old(sm), *world, *sm, *world);
        }
        replies
    } else {
        match target_id {
            None => {
                let msg = ServerMessage::ChatError { reason: reason_whisper_needs_target() };
                let ghost mv = msg@;
                replies.push(msg);
                proof {
                    assert(server_message_views(replies@) =~= seq![mv]);
                }
                replies
            },
            Some(target) => {
                let chat = ServerMessage::ChatMessage {
                    channel,
                    message: copy_bytes(&message),
                    from_player: copy_bytes(&state.username),
                };
                proof {
                    assert(chat@ == chat_v);
                }
                match sm.send_to_player(target, chat) {
                    Ok(_) => {
                        proof {
                            lemma_consistent_same_keys(*old(sm), *world, *sm, *world);
                        }
                        let echo = ServerMessage::ChatMessage {
                            channel,
                            message,
                            from_player: state.username,
                        };
                        proof {
                            assert(echo@ == chat_v);
                        }
                        let ghost mv = echo@;
                        replies.push(echo);
                        proof {
                            assert(server_message_views(replies@) =~= seq![mv]);
                        }
                        replies
                    },
                    Err(_) => {
                        let msg = ServerMessage::ChatError { reason: reason_player_not_found() };
                        let ghost mv = msg@;
                        replies.push(msg);
                        proof {
                            assert(server_message_views(replies@) =~= seq![mv]);
                        }
                        replies
                    },
                }
            },
        }
    }
}

/// Applies one decoded message, minting a fresh id if it is a login.
#[verifier::spinoff_prover]
pub fn process_message(
    ctx: &mut ConnectionContext,
    sm: &mut SessionManager,
    world: &mut GameWorld,
    msg: ClientMessage,
) -> (replies: Vec<ServerMessage>)
    requires
        old(ctx).wf(),
        old(sm).wf(),
        old(world).wf(),
        consistent(*old(sm), *old(world)),
    ensures
        final(ctx).wf(),
        final(sm).wf(),
        final(world).wf(),
        consistent(*final(sm), *final(world)),
        message_post(
            msg@,
            *old(ctx),
            *old(sm),
            *old(world),
            *final(ctx),
            *final(sm),
            *final(world),
            server_message_views(replies@),
        ),
{
    let ghost mv = msg@;
    match msg {
        ClientMessage::Login { username, auth_token: _ } => {
            let ghost uv = username@;
            let new_id = mint_player_id();
            let replies = handle_login_with_id(ctx, sm, world, username, new_id);
            proof {
                assert(login_post(
                    *old(ctx),
                    *old(sm),
                    *old(world),
                    uv,
                    new_id,
                    *ctx,
                    *sm,
                    *world,
                    server_message_views(replies@),
                ));
                assert(mv matches ClientMessageV::Login { username, auth_token } && username
                    == uv);
                assert(message_post(
                    mv,
                    *old(ctx),
                    *old(sm),
                    *old(world),
                    *ctx,
                    *sm,
                    *world,
                    server_message_views(replies@),
                ));
            }
            replies
        },
        ClientMessage::PlayerMove { transform, velocity, timestamp: _ } => {
            handle_player_move(ctx, sm, world, transform, velocity);
            let replies: Vec<ServerMessage> = Vec::new();
            proof {
                assert(server_message_views(replies@) =~= Seq::<ServerMessageV>::empty());
                assert(message_post(
                    mv,
                    *old(ctx),
                    *old(sm),
                    *old(world),
                    *ctx,
                    *sm,
                    *world,
                    server_message_views(replies@),
                ));
            }
            replies
        },
        ClientMessage::ChatMessage { channel, message, target_id } => {
            let replies = handle_chat(ctx, sm, &*world, channel, message, target_id);
            proof {
                assert(message_post(
                    mv,
                    *old(ctx),
                    *old(sm),
                    *old(world),
                    *ctx,
                    *sm,
                    *world,
                    server_message_views(replies@),
                ));
            }
            replies
        },
        _ => {
            let replies: Vec<ServerMessage> = Vec::new();
            proof {
                assert(server_message_views(replies@) =~= Seq::<ServerMessageV>::empty());
                assert(message_post(
                    mv,
                    *old(ctx),
                    *old(sm),
                    *old(world),
                    *ctx,
                    *sm,
                    *world,
                    server_message_views(replies@),
                ));
            }
            replies
        },
    }
}

/// Applies one raw frame.  A frame that does not decode is dropped and
/// the connection goes on; there is no lenient re-parse, because the tags
/// of this format are assigned explicitly and cannot silently shift.
pub fn process_frame(
    ctx: &mut ConnectionContext,
    sm: &mut SessionManager,
    world: &mut GameWorld,
    data: &[u8],
) -> (replies: Vec<ServerMessage>)
    requires
        old(ctx).wf(),
        old(sm).wf(),
        old(world).wf(),
        consistent(*old(sm), *old(world)),
    ensures
        final(ctx).wf(),
        final(sm).wf(),
        final(world).wf(),
        consistent(*final(sm), *final(world)),
        match crate::wire::spec_decode_client(data@) {
            Some(m) => message_post(
                m,
                *old(ctx),
                *old(sm),
                *old(world),
                *final(ctx),
                *final(sm),
                *final(world),
                server_message_views(replies@),
            ),
            None => *final(ctx) == *old(ctx) && *final(sm) == *old(sm) && *final(world) == *old(
                world,
            ) && replies@.len() == 0,
        },
{
    match decode_client_message(data) {
        Some(msg) => process_message(ctx, sm, world, msg),
        None => Vec::new(),
    }
}

/// Closes the connection: if a player had logged in on it, their session
/// and world state leave together, as one logical unit.
pub fn handle_disconnect(ctx: &mut ConnectionContext, sm: &mut SessionManager, world: &mut GameWorld)
    requires
        old(ctx).wf(),
        old(sm).wf(),
        old(world).wf(),
        consistent(*old(sm), *old(world)),
    ensures
        final(ctx).wf(),
        final(sm).wf(),
        final(world).wf(),
        consistent(*final(sm), *final(world)),
        final(ctx).state is Closed,
        final(ctx).player_id is None,
        match old(ctx).player_id {
            None => *final(sm) == *old(sm) && *final(world) == *old(world),
            Some(pid) => {
                &&& !final(sm).contains_player(pid)
                &&& !final(world).contains_player(pid)
                &&& (old(sm).contains_player(pid) ==> final(sm).sessions@.len() == old(
                    sm,
                ).sessions@.len() - 1 && final(world).players@.len() == old(world).players@.len()
                    - 1)
                &&& (!old(sm).contains_player(pid) ==> *final(sm) == *old(sm) && *final(world)
                    == *old(world))
                &&& forall|id: PlayerId|
                    id != pid ==> (#[trigger] final(sm).contains_player(id)
                        <==> old(sm).contains_player(id))
            },
        },
{
    match ctx.player_id {
        Some(player_id) => {
            let removed = sm.remove_session(player_id);
            let removed_state = world.remove_player(player_id);
            proof {
                if old(sm).contains_player(player_id) {
                    assert(removed is Some);
                    assert(removed_state is Some);
                } else {
                    assert(removed is None);
                    assert(!old(world).contains_player(player_id));
                    assert(removed_state is None);
                }
                lemma_consistent_after_remove(*old(sm), *old(world), *sm, *world, player_id);
                assert forall|id: PlayerId|
                    id != player_id implies (#[trigger] sm.contains_player(id)
                    <==> old(sm).contains_player(id)) by {
                    lemma_membership_after_remove(*old(sm), *sm, player_id, id);
                }
            }
        },
        None => {},
    }
    ctx.state = ConnectionState::Closed;
    ctx.player_id = None;
}

/// Removing one session keeps every other player's membership.
proof fn lemma_membership_after_remove(
    sm0: SessionManager,
    sm1: SessionManager,
    pid: PlayerId,
    id: PlayerId,
)
    requires
        sm0.wf(),
        id != pid,
        (sm0.contains_player(pid) && exists|i: int|
            0 <= i < sm0.sessions@.len() && sm1.sessions@ == #[trigger] sm0.sessions@.remove(i)
                && sm0.sessions@[i].player_id == pid) || (!sm0.contains_player(pid) && sm1 == sm0),
    ensures
        sm1.contains_player(id) <==> sm0.contains_player(id),
{
    if sm0.contains_player(pid) {
        let i = choose|i: int|
            0 <= i < sm0.sessions@.len() && sm1.sessions@ == #[trigger] sm0.sessions@.remove(i)
                && sm0.sessions@[i].player_id == pid;
        if sm1.contains_player(id) {
            let k = choose|k: int|
                0 <= k < sm1.sessions@.len() && #[trigger] sm1.sessions@[k].player_id == id;
            if k < i {
                assert(sm0.sessions@[k].player_id == id);
            } else {
                assert(sm0.sessions@[k + 1].player_id == id);
            }
        }
        if sm0.contains_player(id) {
            let k = choose|k: int|
                0 <= k < sm0.sessions@.len() && #[trigger] sm0.sessions@[k].player_id == id;
            if k < i {
                assert(sm1.sessions@[k].player_id == id);
            } else {
                assert(k != i);
                assert(sm1.sessions@[k - 1].player_id == id);
            }
        }
    }
}

/// Removing the same key from two consistent registries keeps them
/// consistent.
proof fn lemma_consistent_after_remove(
    sm0: SessionManager,
    world0: GameWorld,
    sm1: SessionManager,
    world1: GameWorld,
    pid: PlayerId,
)
    requires
        sm0.wf(),
        world0.wf(),
        consistent(sm0, world0),
        (sm0.contains_player(pid) && exists|i: int|
            0 <= i < sm0.sessions@.len() && sm1.sessions@ == #[trigger] sm0.sessions@.remove(i)
                && sm0.sessions@[i].player_id == pid) || (!sm0.contains_player(pid) && sm1 == sm0),
        (world0.contains_player(pid) && exists|i: int|
            0 <= i < world0.players@.len() && world1.players@ == #[trigger] world0.players@.remove(
                i,
            ) && world0.players@[i].0 == pid) || (!world0.contains_player(pid) && world1 == world0),
        !sm1.contains_player(pid),
        !world1.contains_player(pid),
    ensures
        consistent(sm1, world1),
{
    if sm0.contains_player(pid) {
        assert(world0.contains_player(pid));
        assert(sm1.sessions@.len() == sm0.sessions@.len() - 1);
        assert(world1.players@.len() == world0.players@.len() - 1);
    } else {
        assert(!world0.contains_player(pid));
    }
    assert forall|id: PlayerId| sm1.contains_player(id) implies world1.contains_player(id) by {
        if id != pid {
            lemma_membership_after_remove(sm0, sm1, pid, id);
            assert(sm0.contains_player(id));
            assert(world0.contains_player(id));
            lemma_world_membership_after_remove(world0, world1, pid, id);
        }
    }
    assert forall|id: PlayerId| world1.contains_player(id) implies sm1.contains_player(id) by {
        if id != pid {
            lemma_world_membership_after_remove(world0, world1, pid, id);
            assert(world0.contains_player(id));
            assert(sm0.contains_player(id));
            lemma_membership_after_remove(sm0, sm1, pid, id);
        }
    }
}

/// Removing one world entry keeps every other player's membership.
proof fn lemma_world_membership_after_remove(
    world0: GameWorld,
    world1: GameWorld,
    pid: PlayerId,
    id: PlayerId,
)
    requires
        world0.wf(),
        id != pid,
        (world0.contains_player(pid) && exists|i: int|
            0 <= i < world0.players@.len() && world1.players@ == #[trigger] world0.players@.remove(
                i,
            ) && world0.players@[i].0 == pid) || (!world0.contains_player(pid) && world1 == world0),
    ensures
        world1.contains_player(id) <==> world0.contains_player(id),
{
    if world0.contains_player(pid) {
        let i = choose|i: int|
            0 <= i < world0.players@.len() && world1.players@ == #[trigger] world0.players@.remove(
                i,
            ) && world0.players@[i].0 == pid;
        if world1.contains_player(id) {
            let k = choose|k: int|
                0 <= k < world1.players@.len() && #[trigger] world1.players@[k].0 == id;
            if k < i {
                assert(world0.players@[k].0 == id);
            } else {
                assert(world0.players@[k + 1].0 == id);
            }
        }
        if world0.contains_player(id) {
            let k = choose|k: int|
                0 <= k < world0.players@.len() && #[trigger] world0.players@[k].0 == id;
            if k < i {
                assert(world1.players@[k].0 == id);
            } else {
                assert(k != i);
                assert(world1.players@[k - 1].0 == id);
            }
        }
    }
}

} // verus!
