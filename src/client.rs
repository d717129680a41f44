//! A client's view of the session: its own player and the other players that
//! the server has announced.

use crate::codec::{encode, encoded};
use crate::idmap::IdMap;
use crate::messages::{GameServerMessage, MessageModel, Position, RemoteState, State};
use vstd::prelude::*;

verus! {

#[derive(Clone, Copy, Debug, PartialEq, Eq, Structural)]
pub struct Player {
    pub id: u16,
    pub position: Position,
    /// Bit pattern of an `f32` angle in radians.
    pub rotation: u32,
}

impl Player {
    pub fn new(id: u16, position: Position, rotation: u32) -> (r: Player)
        ensures
            r == (Player { id, position, rotation }),
    {
        Player { id, position, rotation }
    }
}

/// The player that this client steers.
#[derive(Clone, Copy, Debug, PartialEq, Eq, Structural)]
pub struct LocalPlayer {
    pub player: Player,
}

/// A player that another client steers.
#[derive(Clone, Copy, Debug, PartialEq, Eq, Structural)]
pub struct RemotePlayer {
    pub player: Player,
}

impl RemotePlayer {
    pub fn new(id: u16, position: Position, rotation: u32) -> (r: RemotePlayer)
        ensures
            r == (RemotePlayer { player: Player { id, position, rotation } }),
    {
        RemotePlayer { player: Player::new(id, position, rotation) }
    }
}

/// The pose `s` applied to the local player `local` and the remote players
/// `remotes`: a pose with the local identifier moves the local player, any
/// other one creates or moves that remote player.
pub open spec fn apply_state(local: Player, remotes: Map<u16, RemotePlayer>, s: RemoteState) -> (
    Player,
    Map<u16, RemotePlayer>,
) {
    if s.id == local.id {
        (Player { id: local.id, position: s.position, rotation: s.rotation }, remotes)
    } else {
        (
            local,
            remotes.insert(
                s.id,
                RemotePlayer { player: Player { id: s.id, position: s.position, rotation: s.rotation } },
            ),
        )
    }
}

/// The poses of `s` applied in order.
pub open spec fn apply_states(local: Player, remotes: Map<u16, RemotePlayer>, s: Seq<RemoteState>) -> (
    Player,
    Map<u16, RemotePlayer>,
)
    decreases s.len(),
{
    if s.len() == 0 {
        (local, remotes)
    } else {
        let (l, m) = apply_states(local, remotes, s.drop_last());
        apply_state(l, m, s.last())
    }
}

/// The `ClientUpdate` frame that reports the local player's pose.
pub fn client_update_frame(local: &LocalPlayer) -> (r: Vec<u8>)
    ensures
        r@ == encoded(
            MessageModel::ClientUpdate(
                State {
                    id: local.player.id,
                    position: local.player.position,
                    rotation: local.player.rotation,
                },
            ),
        ),
{
    let state = State {
        id: local.player.id,
        position: local.player.position,
        rotation: local.player.rotation,
    };
    encode(&GameServerMessage::ClientUpdate(state))
}

/// The local player and the remote players known to one client.
pub struct Roster {
    local_player_state: LocalPlayer,
    remote_player_state: IdMap<RemotePlayer>,
}

impl Roster {
    pub closed spec fn wf(&self) -> bool {
        self.remote_player_state.wf()
    }

    /// The local player.
    pub closed spec fn local(&self) -> LocalPlayer {
        self.local_player_state
    }

    /// The remote players, by identifier.
    pub closed spec fn remotes(&self) -> Map<u16, RemotePlayer> {
        self.remote_player_state@
    }

    /// A roster with the given local player and no remote player.
    pub fn new(local_player_state: LocalPlayer) -> (r: Roster)
        ensures
            r.wf(),
            r.local() == local_player_state,
            r.remotes() == Map::<u16, RemotePlayer>::empty(),
    {
        Roster { local_player_state, remote_player_state: IdMap::new() }
    }

    /// The local player.
    pub fn local_player_state(&self) -> (r: LocalPlayer)
        ensures
            r == self.local(),
    {
        self.local_player_state
    }

    /// Moves the local player; its identifier and the remote players stay.
    pub fn move_local(&mut self, position: Position, rotation: u32)
        requires
            old(self).wf(),
        ensures
            final(self).wf(),
            final(self).local().player == (Player {
                id: old(self).local().player.id,
                position,
                rotation,
            }),
            final(self).remotes() == old(self).remotes(),
    {
        self.local_player_state.player.position = position;
        self.local_player_state.player.rotation = rotation;
    }

    /// The remote player `id`, if known.
    pub fn remote(&self, id: u16) -> (r: Option<RemotePlayer>)
        requires
            self.wf(),
        ensures
            match r {
                Some(p) => self.remotes().contains_key(id) && p == self.remotes()[id],
                None => !self.remotes().contains_key(id),
            },
    {
        match self.remote_player_state.get(id) {
            Some(p) => Some(*p),
            None => None,
        }
    }

    /// The identifiers of the remote players, each once.
    pub fn remote_ids(&self) -> (r: Vec<u16>)
        requires
            self.wf(),
        ensures
            r@.no_duplicates(),
            r@.to_set() == self.remotes().dom(),
    {
        self.remote_player_state.key_list()
    }

    /// Applies a message from the server. `Welcome` sets the local player's
    /// identifier; `Goodbye` forgets that remote player; `ServerUpdate`
    /// applies its poses in order; a `ClientUpdate` changes nothing.
    pub fn update_from_server(&mut self, message: GameServerMessage)
        requires
            old(self).wf(),
        ensures
            final(self).wf(),
            match message@ {
                MessageModel::Welcome(id) => {
                    &&& final(self).local().player.id == id
                    &&& final(self).local().player.position == old(
                        self,
                    ).local().player.position
                    &&& final(self).local().player.rotation == old(
                        self,
                    ).local().player.rotation
                    &&& final(self).remotes() == old(self).remotes()
                },
                MessageModel::Goodbye(id) => {
                    &&& final(self).local() == old(self).local()
                    &&& final(self).remotes() == old(self).remotes().remove(id)
                },
                MessageModel::ServerUpdate(s) => {
                    let (l, m) = apply_states(
                        old(self).local().player,
                        old(self).remotes(),
                        s,
                    );
                    &&& final(self).local().player == l
                    &&& final(self).remotes() == m
                },
                MessageModel::ClientUpdate(_) => {
                    &&& final(self).local() == old(self).local()
                    &&& final(self).remotes() == old(self).remotes()
                },
            },
    {
        match message {
            GameServerMessage::Welcome(user_id) => {
                self.local_player_state.player.id = user_id;
            },
            GameServerMessage::Goodbye(user_id) => {
                let _ = self.remote_player_state.remove(user_id);
            },
            GameServerMessage::ServerUpdate(states) => {
                let mut i: usize = 0;
                while i < states.len()
                    invariant
                        i <= states@.len(),
                        self.wf(),
                        self.local_player_state.player == apply_states(
                            old(self).local().player,
                            old(self).remotes(),
                            states@.take(i as int),
                        ).0,
                        self.remotes() == apply_states(
                            old(self).local().player,
                            old(self).remotes(),
                            states@.take(i as int),
                        ).1,
                    decreases states@.len() - i,
                {
                    let state = states[i];
                    if state.id == self.local_player_state.player.id {
                        self.local_player_state.player.position = state.position;
                        self.local_player_state.player.rotation = state.rotation;
                    } else {
                        self.remote_player_state.insert(
                            state.id,
                            RemotePlayer::new(state.id, state.position, state.rotation),
                        );
                    }
                    assert(states@.take(i + 1).drop_last() =~= states@.take(i as int));
                    i = i + 1;
                }
                assert(states@.take(i as int) =~= states@);
            },
            GameServerMessage::ClientUpdate(_) => {},
        }
    }
}

} // verus!
