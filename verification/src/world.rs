//! The authoritative world state: each player's username, transform and
//! zone, keyed by player id.
//!
//! The zone counter exists but is never advanced, so every player lands
//! in the same zone; this keeps the observed flat single-zone model
//! rather than silently changing behaviour.

use vstd::prelude::*;
use vstd::slice::slice_to_vec;
use crate::protocol::{PlayerId, Transform};

verus! {

/// One player's world-side state.
#[derive(Debug)]
pub struct PlayerState {
    pub username: Vec<u8>,
    pub transform: Transform,
    pub zone_id: u32,
}

/// Mathematical value of a [`PlayerState`].
pub struct PlayerStateV {
    pub username: Seq<u8>,
    pub transform: Transform,
    pub zone_id: u32,
}

impl View for PlayerState {
    type V = PlayerStateV;

    open spec fn view(&self) -> PlayerStateV {
        PlayerStateV { username: self.username@, transform: self.transform, zone_id: self.zone_id }
    }
}

/// The mathematical values of a list of world entries.
pub open spec fn entry_views(s: Seq<(PlayerId, PlayerState)>) -> Seq<(PlayerId, PlayerStateV)> {
    Seq::new(s.len(), |i: int| (s[i].0, s[i].1@))
}

/// The entries of a given zone, in their stored order.
pub open spec fn zone_filter(s: Seq<(PlayerId, PlayerStateV)>, zone_id: u32) -> Seq<
    (PlayerId, PlayerStateV),
>
    decreases s.len(),
{
    if s.len() == 0 {
        Seq::empty()
    } else {
        (if s[0].1.zone_id == zone_id {
            seq![s[0]]
        } else {
            Seq::empty()
        }) + zone_filter(s.drop_first(), zone_id)
    }
}

proof fn lemma_zone_filter_push(s: Seq<(PlayerId, PlayerStateV)>, p: (PlayerId, PlayerStateV), zone_id: u32)
    ensures
        zone_filter(s.push(p), zone_id) == zone_filter(s, zone_id) + (
        if p.1.zone_id == zone_id {
            seq![p]
        } else {
            Seq::<(PlayerId, PlayerStateV)>::empty()
        }),
    decreases s.len(),
{
    let tail = if p.1.zone_id == zone_id {
        seq![p]
    } else {
        Seq::<(PlayerId, PlayerStateV)>::empty()
    };
    if s.len() == 0 {
        assert(s.push(p)[0] == p);
        assert(s.push(p).drop_first() =~= s);
        assert(zone_filter(s, zone_id) + tail =~= tail);
        assert(tail + zone_filter(s, zone_id) =~= tail);
    } else {
        assert(s.push(p)[0] == s[0]);
        assert(s.push(p).drop_first() =~= s.drop_first().push(p));
        lemma_zone_filter_push(s.drop_first(), p, zone_id);
        let head = if s[0].1.zone_id == zone_id {
            seq![s[0]]
        } else {
            Seq::<(PlayerId, PlayerStateV)>::empty()
        };
        assert(head + (zone_filter(s.drop_first(), zone_id) + tail) =~= (head + zone_filter(
            s.drop_first(),
            zone_id,
        )) + tail);
    }
}

/// The world: a map from player id to state, with the zone counter.
#[derive(Debug)]
pub struct GameWorld {
    pub players: Vec<(PlayerId, PlayerState)>,
    pub next_zone_id: u32,
}

impl GameWorld {
    /// No two entries share a player id.
    pub open spec fn wf(self) -> bool {
        forall|i: int, j: int|
            0 <= i < j < self.players@.len() ==> #[trigger] self.players@[i].0
                != #[trigger] self.players@[j].0
    }

    /// Some entry is keyed by this player id.
    pub open spec fn contains_player(self, player_id: PlayerId) -> bool {
        exists|i: int| 0 <= i < self.players@.len() && #[trigger] self.players@[i].0 == player_id
    }

    pub fn new() -> (r: Self)
        ensures
            r.players@.len() == 0,
            r.next_zone_id == 1,
            r.wf(),
    {
        GameWorld { players: Vec::new(), next_zone_id: 1 }
    }

    /// The index of the entry keyed by this id, if any.
    fn find(&self, player_id: PlayerId) -> (r: Option<usize>)
        ensures
            match r {
                Some(i) => i < self.players@.len() && self.players@[i as int].0 == player_id,
                None => !self.contains_player(player_id),
            },
    {
        let n = self.players.len();
        let mut i: usize = 0;
        while i < n
            invariant
                i <= n,
                n == self.players@.len(),
                forall|k: int| 0 <= k < i ==> #[trigger] self.players@[k].0 != player_id,
            decreases n - i,
        {
            if self.players[i].0 == player_id {
                return Some(i);
            }
            i = i + 1;
        }
        None
    }

    /// Whether an entry is keyed by this player id.
    pub fn contains(&self, player_id: PlayerId) -> (r: bool)
        ensures
            r == self.contains_player(player_id),
    {
        match self.find(player_id) {
            Some(_) => true,
            None => false,
        }
    }

    /// Adds a player in the current zone; an entry already keyed by this
    /// id is replaced, as a map insertion would.
    pub fn add_player(&mut self, player_id: PlayerId, username: Vec<u8>, transform: Transform)
        requires
            old(self).wf(),
        ensures
            final(self).wf(),
            final(self).next_zone_id == old(self).next_zone_id,
            final(self).contains_player(player_id),
            ({
                let entry_state = PlayerStateV {
                    username: username@,
                    transform: transform,
                    zone_id: old(self).next_zone_id,
                };
                if old(self).contains_player(player_id) {
                    exists|i: int|
                        0 <= i < old(self).players@.len() && #[trigger] old(self).players@[i].0
                            == player_id && entry_views(final(self).players@) == entry_views(
                            old(self).players@,
                        ).update(i, (player_id, entry_state))
                } else {
                    entry_views(final(self).players@) == entry_views(old(self).players@).push(
                        (player_id, entry_state),
                    )
                }
            }),
    {
        let state = PlayerState { username, transform, zone_id: self.next_zone_id };
        let ghost stv = state@;
        match self.find(player_id) {
            Some(i) => {
                let slot = &mut self.players[i];
                slot.1 = state;
                proof {
                    assert(self.players@[i as int].0 == player_id);
                    assert(entry_views(self.players@) =~= entry_views(old(self).players@).update(
                        i as int,
                        (player_id, stv),
                    ));
                    assert forall|a: int, b: int|
                        0 <= a < b < self.players@.len() implies self.players@[a].0
                        != self.players@[b].0 by {
                        assert(old(self).players@[a].0 != old(self).players@[b].0);
                    }
                }
            },
            None => {
                self.players.push((player_id, state));
                proof {
                    assert(self.players@[old(self).players@.len() as int].0 == player_id);
                    assert(entry_views(self.players@) =~= entry_views(old(self).players@).push(
                        (player_id, stv),
                    ));
                }
            },
        }
    }

    /// Replaces the player's transform, returning the one it had; returns
    /// nothing, and changes nothing, if the player is absent.
    pub fn update_player_position(&mut self, player_id: PlayerId, transform: Transform) -> (r:
        Option<Transform>)
        requires
            old(self).wf(),
        ensures
            final(self).wf(),
            final(self).next_zone_id == old(self).next_zone_id,
            final(self).players@.len() == old(self).players@.len(),
            forall|i: int|
                0 <= i < old(self).players@.len() ==> #[trigger] final(self).players@[i].0
                    == old(self).players@[i].0,
            match r {
                Some(prev) => exists|i: int|
                    0 <= i < old(self).players@.len() && #[trigger] old(self).players@[i].0
                        == player_id && prev == old(self).players@[i].1.transform && entry_views(
                        final(self).players@,
                    ) == entry_views(old(self).players@).update(
                        i,
                        (
                            player_id,
                            PlayerStateV {
                                username: old(self).players@[i].1@.username,
                                transform: transform,
                                zone_id: old(self).players@[i].1.zone_id,
                            },
                        ),
                    ),
                None => !old(self).contains_player(player_id) && *final(self) == *old(self),
            },
    {
        match self.find(player_id) {
            Some(i) => {
                let prev = self.players[i].1.transform;
                let slot = &mut self.players[i];
                slot.1.transform = transform;
                proof {
                    assert(entry_views(self.players@) =~= entry_views(old(self).players@).update(
                        i as int,
                        (
                            player_id,
                            PlayerStateV {
                                username: old(self).players@[i as int].1@.username,
                                transform: transform,
                                zone_id: old(self).players@[i as int].1.zone_id,
                            },
                        ),
                    ));
                    assert forall|a: int, b: int|
                        0 <= a < b < self.players@.len() implies self.players@[a].0
                        != self.players@[b].0 by {
                        assert(old(self).players@[a].0 != old(self).players@[b].0);
                    }
                }
                Some(prev)
            },
            None => None,
        }
    }

    /// A copy of the player's state, or nothing.
    pub fn get_player_state(&self, player_id: PlayerId) -> (r: Option<PlayerState>)
        ensures
            match r {
                Some(state) => self.contains_player(player_id) && exists|i: int|
                    0 <= i < self.players@.len() && #[trigger] self.players@[i].0 == player_id
                        && state@ == self.players@[i].1@,
                None => !self.contains_player(player_id),
            },
    {
        match self.find(player_id) {
            Some(i) => {
                let src = &self.players[i].1;
                Some(
                    PlayerState {
                        username: slice_to_vec(src.username.as_slice()),
                        transform: src.transform,
                        zone_id: src.zone_id,
                    },
                )
            },
            None => None,
        }
    }

    /// Copies of the entries whose zone matches, in stored order; with the
    /// single-zone model this is every player.
    #[verifier::loop_isolation(false)]
    pub fn get_players_in_zone(&self, zone_id: u32) -> (r: Vec<(PlayerId, PlayerState)>)
        ensures
            entry_views(r@) == zone_filter(entry_views(self.players@), zone_id),
    {
        let ghost all = entry_views(self.players@);
        let mut out: Vec<(PlayerId, PlayerState)> = Vec::new();
        let n = self.players.len();
        let mut i: usize = 0;
        proof {
            assert(all.take(0) =~= Seq::<(PlayerId, PlayerStateV)>::empty());
            assert(entry_views(out@) =~= zone_filter(all.take(0), zone_id));
        }
        while i < n
            invariant
                i <= n,
                n == self.players@.len(),
                entry_views(out@) == zone_filter(all.take(i as int), zone_id),
            decreases n - i,
        {
            if self.players[i].1.zone_id == zone_id {
                let copy = PlayerState {
                    username: slice_to_vec(self.players[i].1.username.as_slice()),
                    transform: self.players[i].1.transform,
                    zone_id: self.players[i].1.zone_id,
                };
                let entry = (self.players[i].0, copy);
                let ghost prev_views = entry_views(out@);
                let ghost entry_view = (entry.0, entry.1@);
                out.push(entry);
                proof {
                    assert(entry_views(out@) =~= prev_views.push(entry_view));
                }
            }
            proof {
                lemma_zone_filter_push(all.take(i as int), all[i as int], zone_id);
                assert(all.take(i as int + 1) =~= all.take(i as int).push(all[i as int]));
                if self.players@[i as int].1.zone_id == zone_id {
                    assert(entry_views(out@) =~= zone_filter(all.take(i as int + 1), zone_id));
                } else {
                    assert(entry_views(out@) =~= zone_filter(all.take(i as int + 1), zone_id));
                }
            }
            i = i + 1;
        }
        proof {
            assert(all.take(n as int) =~= all);
        }
        out
    }

    /// Removes and returns the player's state, or nothing.
    pub fn remove_player(&mut self, player_id: PlayerId) -> (r: Option<PlayerState>)
        requires
            old(self).wf(),
        ensures
            final(self).wf(),
            final(self).next_zone_id == old(self).next_zone_id,
            !final(self).contains_player(player_id),
            match r {
                Some(state) => exists|i: int|
                    0 <= i < old(self).players@.len() && #[trigger] old(self).players@[i].0
                        == player_id && state == old(self).players@[i].1 && final(self).players@
                        == old(self).players@.remove(i),
                None => !old(self).contains_player(player_id) && *final(self) == *old(self),
            },
    {
        match self.find(player_id) {
            Some(i) => {
                let (_, state) = self.players.remove(i);
                proof {
                    assert forall|k: int|
                        0 <= k < self.players@.len() implies #[trigger] self.players@[k].0
                        != player_id by {
                        if k < i {
                            assert(self.players@[k] == old(self).players@[k]);
                        } else {
                            assert(self.players@[k] == old(self).players@[k + 1]);
                        }
                    }
                }
                Some(state)
            },
            None => None,
        }
    }

    /// The number of tracked players.
    pub fn player_count(&self) -> (r: usize)
        ensures
            r == self.players@.len(),
    {
        self.players.len()
    }
}

impl Default for GameWorld {
    /// An empty world in the first zone.
    fn default() -> (r: Self)
        ensures
            r.players@.len() == 0,
            r.next_zone_id == 1,
            r.wf(),
    {
        GameWorld::new()
    }
}

} // verus!
