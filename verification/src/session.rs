//! One authenticated player's session: identity plus the outbound queue.

use vstd::prelude::*;
use crate::protocol::PlayerId;

verus! {

/// A secondary-transport endpoint: sixteen address bytes and a port.
#[derive(Clone, Copy, PartialEq, Eq, Structural, Debug)]
pub struct UdpEndpoint {
    pub ip: u128,
    pub port: u16,
}

/// The server-side record binding an authenticated player to a delivery
/// queue for outbound frames.
///
/// The queue holds pre-encoded frames, oldest first, and is unbounded: a
/// slow client accumulates memory rather than applying backpressure.  The
/// transport edge drains it with [`GameSession::take_outbound`].
#[derive(Debug)]
pub struct GameSession {
    pub player_id: PlayerId,
    pub username: Vec<u8>,
    pub outbound: Vec<Vec<u8>>,
    pub udp_addr: Option<UdpEndpoint>,
}

impl GameSession {
    /// The queued frames, oldest first, as byte sequences.
    pub open spec fn queue(self) -> Seq<Seq<u8>> {
        self.outbound.deep_view()
    }

    /// Everything but the queue is the same in both sessions.
    pub open spec fn same_identity(self, other: GameSession) -> bool {
        &&& self.player_id == other.player_id
        &&& self.username == other.username
        &&& self.udp_addr == other.udp_addr
    }

    pub fn new(player_id: PlayerId, username: Vec<u8>) -> (s: Self)
        ensures
            s.player_id == player_id,
            s.username == username,
            s.queue() == Seq::<Seq<u8>>::empty(),
            s.udp_addr is None,
    {
        let s = GameSession { player_id, username, outbound: Vec::new(), udp_addr: None };
        proof {
            assert(s.queue() =~= Seq::<Seq<u8>>::empty());
        }
        s
    }

    /// Queues one already-encoded frame for delivery.
    pub fn send_serialized(&mut self, data: Vec<u8>)
        ensures
            final(self).same_identity(*old(self)),
            final(self).queue() == old(self).queue().push(data@),
    {
        self.outbound.push(data);
        proof {
            assert(self.queue() =~~= old(self).queue().push(data@));
        }
    }

    /// Hands out every queued frame, oldest first, and empties the queue.
    pub fn take_outbound(&mut self) -> (r: Vec<Vec<u8>>)
        ensures
            final(self).same_identity(*old(self)),
            final(self).queue() == Seq::<Seq<u8>>::empty(),
            r.deep_view() == old(self).queue(),
    {
        let mut r: Vec<Vec<u8>> = Vec::new();
        core::mem::swap(&mut r, &mut self.outbound);
        proof {
            assert(self.queue() =~= Seq::<Seq<u8>>::empty());
        }
        r
    }

    /// Records the endpoint for the secondary transport.
    pub fn set_udp_addr(&mut self, addr: UdpEndpoint)
        ensures
            final(self).player_id == old(self).player_id,
            final(self).username == old(self).username,
            final(self).udp_addr == Some(addr),
            final(self).queue() == old(self).queue(),
    {
        self.udp_addr = Some(addr);
    }

    pub fn get_udp_addr(&self) -> (r: Option<UdpEndpoint>)
        ensures
            r == self.udp_addr,
    {
        self.udp_addr
    }
}

} // verus!
