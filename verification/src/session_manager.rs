//! The session registry: every logged-in player's session, and the
//! broadcast, targeted-send and whisper fan-out over their outbound
//! queues.
//!
//! A broadcast encodes its message exactly once and pushes that one frame
//! onto every queue; per-recipient work is a queue push, never a second
//! encoding.

use vstd::prelude::*;
use vstd::slice::slice_to_vec;
use crate::protocol::{PlayerId, ServerMessage};
use crate::session::GameSession;
use crate::wire::enc_server;
use crate::codec::encode_server_message;

verus! {

/// What can go wrong inside the registry.
///
/// The codec of this library is total, so `EncodeFailure` is part of the
/// taxonomy but is never returned by the verified operations.
#[derive(Clone, Copy, PartialEq, Eq, Structural, Debug)]
pub enum RegistryError {
    DuplicateSession,
    PlayerNotFound,
    EncodeFailure,
}

/// Copies one frame so the same encoding can sit in several queues.
fn copy_frame(v: &Vec<u8>) -> (r: Vec<u8>)
    ensures
        r@ == v@,
{
    slice_to_vec(v.as_slice())
}


/// Pushes one frame onto the queue of the session at index `i`, leaving
/// every other session untouched.
fn push_frame_at(sessions: &mut Vec<GameSession>, i: usize, frame: Vec<u8>)
    requires
        i < old(sessions)@.len(),
    ensures
        final(sessions)@.len() == old(sessions)@.len(),
        final(sessions)@[i as int].same_identity(old(sessions)@[i as int]),
        final(sessions)@[i as int].queue() == old(sessions)@[i as int].queue().push(frame@),
        forall|k: int|
            0 <= k < old(sessions)@.len() && k != i ==> final(sessions)@[k] == old(sessions)@[k],
{
    let session = &mut sessions[i];
    session.send_serialized(frame);
}

/// The registry of live sessions, keyed by player id.
#[derive(Debug)]
pub struct SessionManager {
    pub sessions: Vec<GameSession>,
}

impl SessionManager {
    /// No two sessions share a player id.
    pub open spec fn wf(self) -> bool {
        forall|i: int, j: int|
            0 <= i < j < self.sessions@.len() ==> #[trigger] self.sessions@[i].player_id
                != #[trigger] self.sessions@[j].player_id
    }

    /// Some session is registered under this player id.
    pub open spec fn contains_player(self, player_id: PlayerId) -> bool {
        exists|i: int|
            0 <= i < self.sessions@.len() && #[trigger] self.sessions@[i].player_id == player_id
    }

    pub fn new() -> (r: Self)
        ensures
            r.sessions@.len() == 0,
            r.wf(),
    {
        SessionManager { sessions: Vec::new() }
    }

    /// The index of the session registered under this id, if any.
    fn find(&self, player_id: PlayerId) -> (r: Option<usize>)
        ensures
            match r {
                Some(i) => i < self.sessions@.len() && self.sessions@[i as int].player_id
                    == player_id,
                None => !self.contains_player(player_id),
            },
    {
        let n = self.sessions.len();
        let mut i: usize = 0;
        while i < n
            invariant
                i <= n,
                n == self.sessions@.len(),
                forall|k: int| 0 <= k < i ==> #[trigger] self.sessions@[k].player_id != player_id,
            decreases n - i,
        {
            if self.sessions[i].player_id == player_id {
                return Some(i);
            }
            i = i + 1;
        }
        None
    }

    /// Whether a session is registered under this player id.
    pub fn contains(&self, player_id: PlayerId) -> (r: bool)
        ensures
            r == self.contains_player(player_id),
    {
        match self.find(player_id) {
            Some(_) => true,
            None => false,
        }
    }

    /// Registers a session; refused if its player id is already present.
    pub fn add_session(&mut self, session: GameSession) -> (r: Result<(), RegistryError>)
        requires
            old(self).wf(),
        ensures
            final(self).wf(),
            match r {
                Ok(_) => !old(self).contains_player(session.player_id) && final(self).sessions@
                    == old(self).sessions@.push(session),
                Err(e) => e == RegistryError::DuplicateSession && old(self).contains_player(
                    session.player_id,
                ) && *final(self) == *old(self),
            },
    {
        match self.find(session.player_id) {
            Some(_) => Err(RegistryError::DuplicateSession),
            None => {
                self.sessions.push(session);
                Ok(())
            },
        }
    }

    /// Removes and returns the session of this player, if present.
    pub fn remove_session(&mut self, player_id: PlayerId) -> (r: Option<GameSession>)
        requires
            old(self).wf(),
        ensures
            final(self).wf(),
            !final(self).contains_player(player_id),
            match r {
                Some(s) => s.player_id == player_id && exists|i: int|
                    0 <= i < old(self).sessions@.len() && old(self).sessions@[i] == s
                        && final(self).sessions@ == old(self).sessions@.remove(i),
                None => !old(self).contains_player(player_id) && *final(self) == *old(self),
            },
    {
        match self.find(player_id) {
            Some(i) => {
                let s = self.sessions.remove(i);
                proof {
                    assert forall|k: int|
                        0 <= k < self.sessions@.len() implies #[trigger] self.sessions@[k].player_id
                        != player_id by {
                        if k < i {
                            assert(self.sessions@[k] == old(self).sessions@[k]);
                        } else {
                            assert(self.sessions@[k] == old(self).sessions@[k + 1]);
                        }
                    }
                }
                Some(s)
            },
            None => None,
        }
    }

    /// A copy of the player's identity record: id, username and endpoint.
    /// Queued frames are not copied; they stay with the registry.
    pub fn get_session(&self, player_id: PlayerId) -> (r: Option<GameSession>)
        ensures
            match r {
                Some(s) => self.contains_player(player_id) && s.player_id == player_id && exists|
                    i: int,
                |
                    0 <= i < self.sessions@.len() && #[trigger] self.sessions@[i].player_id
                        == player_id && s.username@ == self.sessions@[i].username@ && s.udp_addr
                        == self.sessions@[i].udp_addr && s.queue() == Seq::<Seq<u8>>::empty(),
                None => !self.contains_player(player_id),
            },
    {
        match self.find(player_id) {
            Some(i) => {
                let src = &self.sessions[i];
                let copy = GameSession {
                    player_id: src.player_id,
                    username: copy_frame(&src.username),
                    outbound: Vec::new(),
                    udp_addr: src.udp_addr,
                };
                proof {
                    assert(copy.queue() =~= Seq::<Seq<u8>>::empty());
                }
                Some(copy)
            },
            None => None,
        }
    }

    /// Encodes `message` once and pushes that frame onto every session's
    /// queue, in registry order.  Returns the number of deliveries.
    #[verifier::loop_isolation(false)]
    pub fn broadcast(&mut self, message: &ServerMessage) -> (count: usize)
        ensures
            final(self).sessions@.len() == old(self).sessions@.len(),
            forall|i: int|
                0 <= i < old(self).sessions@.len() ==> final(self).sessions@[i].same_identity(
                    #[trigger] old(self).sessions@[i],
                ) && final(self).sessions@[i].queue() == old(self).sessions@[i].queue().push(
                    enc_server(message@),
                ),
            count == old(self).sessions@.len(),
    {
        let frame = encode_server_message(message);
        let n = self.sessions.len();
        let mut i: usize = 0;
        while i < n
            invariant
                i <= n,
                n == self.sessions@.len(),
                self.sessions@.len() == old(self).sessions@.len(),
                frame@ == enc_server(message@),
                forall|k: int|
                    0 <= k < i ==> self.sessions@[k].same_identity(
                        #[trigger] old(self).sessions@[k],
                    ) && self.sessions@[k].queue() == old(self).sessions@[k].queue().push(
                        enc_server(message@),
                    ),
                forall|k: int|
                    i <= k < n ==> self.sessions@[k] == #[trigger] old(self).sessions@[k],
            decreases n - i,
        {
            let copy = copy_frame(&frame);
            push_frame_at(&mut self.sessions, i, copy);
            i = i + 1;
        }
        n
    }

    /// As [`Self::broadcast`], but the excluded player's queue is left
    /// untouched.  Returns the number of deliveries.
    #[verifier::loop_isolation(false)]
    pub fn broadcast_except(&mut self, exclude_player_id: PlayerId, message: &ServerMessage) -> (count:
        usize)
        requires
            old(self).wf(),
        ensures
            final(self).wf(),
            final(self).sessions@.len() == old(self).sessions@.len(),
            forall|i: int|
                0 <= i < old(self).sessions@.len() ==> final(self).sessions@[i].same_identity(
                    #[trigger] old(self).sessions@[i],
                ) && final(self).sessions@[i].queue() == (
                    if old(self).sessions@[i].player_id == exclude_player_id {
                        old(self).sessions@[i].queue()
                    } else {
                        old(self).sessions@[i].queue().push(enc_server(message@))
                    }
                ),
            old(self).contains_player(exclude_player_id) ==> count == old(self).sessions@.len()
                - 1,
            !old(self).contains_player(exclude_player_id) ==> count == old(self).sessions@.len(),
    {
        let frame = encode_server_message(message);
        let n = self.sessions.len();
        let mut i: usize = 0;
        let mut count: usize = 0;
        while i < n
            invariant
                i <= n,
                count <= i,
                n == self.sessions@.len(),
                self.sessions@.len() == old(self).sessions@.len(),
                frame@ == enc_server(message@),
                forall|k: int|
                    0 <= k < i ==> self.sessions@[k].same_identity(
                        #[trigger] old(self).sessions@[k],
                    ) && self.sessions@[k].queue() == (
                        if old(self).sessions@[k].player_id == exclude_player_id {
                            old(self).sessions@[k].queue()
                        } else {
                            old(self).sessions@[k].queue().push(enc_server(message@))
                        }
                    ),
                forall|k: int|
                    i <= k < n ==> self.sessions@[k] == #[trigger] old(self).sessions@[k],
                (exists|k: int|
                    0 <= k < i && #[trigger] old(self).sessions@[k].player_id
                        == exclude_player_id) ==> count == i - 1,
                (forall|k: int|
                    0 <= k < i ==> #[trigger] old(self).sessions@[k].player_id
                        != exclude_player_id) ==> count == i,
            decreases n - i,
        {
            proof {
                assert(self.sessions@[i as int] == old(self).sessions@[i as int]);
            }
            let skip_this = self.sessions[i].player_id == exclude_player_id;
            proof {
                if skip_this {
                    assert(old(self).sessions@[i as int].player_id == exclude_player_id);
                } else {
                    assert(old(self).sessions@[i as int].player_id != exclude_player_id);
                }
            }
            if !skip_this {
                let copy = copy_frame(&frame);
                push_frame_at(&mut self.sessions, i, copy);
                count = count + 1;
            }
            i = i + 1;
        }
        proof {
            assert forall|a: int, b: int|
                0 <= a < b < self.sessions@.len() implies self.sessions@[a].player_id
                != self.sessions@[b].player_id by {
                assert(self.sessions@[a].same_identity(old(self).sessions@[a]));
                assert(self.sessions@[b].same_identity(old(self).sessions@[b]));
            }
        }
        count
    }

    /// Encodes `message` and queues it for exactly one player; fails with
    /// `PlayerNotFound`, touching nothing, if that player has no session.
    pub fn send_to_player(&mut self, player_id: PlayerId, message: ServerMessage) -> (r: Result<
        (),
        RegistryError,
    >)
        requires
            old(self).wf(),
        ensures
            final(self).wf(),
            final(self).sessions@.len() == old(self).sessions@.len(),
            match r {
                Ok(_) => old(self).contains_player(player_id) && forall|i: int|
                    #![trigger old(self).sessions@[i]]
                    0 <= i < old(self).sessions@.len() ==> (
                        if old(self).sessions@[i].player_id == player_id {
                            final(self).sessions@[i].same_identity(
                                old(self).sessions@[i],
                            ) && final(self).sessions@[i].queue()
                                == old(self).sessions@[i].queue().push(enc_server(message@))
                        } else {
                            final(self).sessions@[i] == old(self).sessions@[i]
                        }
                    ),
                Err(e) => e == RegistryError::PlayerNotFound && !old(self).contains_player(
                    player_id,
                ) && *final(self) == *old(self),
            },
    {
        match self.find(player_id) {
            None => Err(RegistryError::PlayerNotFound),
            Some(i) => {
                let frame = encode_server_message(&message);
                push_frame_at(&mut self.sessions, i, frame);
                Ok(())
            },
        }
    }
}

impl Default for SessionManager {
    /// An empty registry.
    fn default() -> (r: Self)
        ensures
            r.sessions@.len() == 0,
            r.wf(),
    {
        SessionManager::new()
    }
}

} // verus!
