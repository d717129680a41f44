//! The server's shared state and the decisions taken on it.
//!
//! A `Relay` holds, for every live connection, its outbound delivery handle
//! and the last pose its client reported, in one table: the connection
//! registry and the state store are two views of it, so an identifier is in
//! both or in neither. The transport drives it: it calls `connect` when a
//! connection is accepted, `receive` for each inbound frame, `disconnect` when
//! the stream ends, and `tick` on each beat of the broadcast loop, and it
//! delivers the frames that these return.

use crate::codec::{decode, decoded, encode, encoded, decode_error, DecodeError};
use crate::idmap::IdMap;
use crate::ids::IdAllocator;
use crate::messages::{GameServerMessage, MessageModel, Position, RemoteState};
use vstd::prelude::*;

verus! {

/// Target time between two broadcasts, in microseconds.
pub const TICK_INTERVAL_MICROS: u64 = 50_000;

/// Shortest pause between two broadcasts, in microseconds.
pub const MIN_PAUSE_MICROS: u64 = 5_000;

/// One live connection: where to send to it, and its entity's pose.
pub struct Peer<H> {
    pub handle: H,
    pub state: RemoteState,
}

/// A frame to be delivered, independently, to each of the given peers.
pub struct Delivery {
    pub recipients: Vec<u16>,
    pub frame: Vec<u8>,
}

/// What became of an inbound frame.
#[derive(Clone, Copy, Debug, PartialEq, Eq, Structural)]
pub enum Inbound {
    /// A client update, applied to the sender's own pose.
    Applied,
    /// A well-formed frame that asks for nothing.
    Ignored,
    /// A frame that encodes no message; it is dropped.
    Malformed(DecodeError),
}

/// The pose of a newly connected peer: at the origin, facing angle zero.
pub open spec fn spawn_state(id: u16) -> RemoteState {
    RemoteState { id, position: Position { x: 0, y: 0 }, rotation: 0 }
}

/// `s` lists the values of `m`, each once, in some order.
pub open spec fn is_snapshot(s: Seq<RemoteState>, m: Map<u16, RemoteState>) -> bool {
    &&& forall|i: int| 0 <= i < s.len() ==> #[trigger] m.contains_key(s[i].id) && m[s[i].id] == s[i]
    &&& forall|i: int, j: int| 0 <= i < j < s.len() ==> s[i].id != s[j].id
    &&& forall|k: u16| #[trigger] m.contains_key(k) ==> exists|i: int| 0 <= i < s.len() && s[i].id == k
}

/// `r` names each key of `m` once.
pub open spec fn names_all(r: Seq<u16>, m: Set<u16>) -> bool {
    r.no_duplicates() && r.to_set() == m
}

/// How long the broadcast loop sleeps after a beat that took `elapsed`
/// microseconds: what is left of the interval, but never less than the floor.
pub open spec fn pause_for(elapsed: u64) -> u64 {
    if elapsed + MIN_PAUSE_MICROS <= TICK_INTERVAL_MICROS {
        (TICK_INTERVAL_MICROS - elapsed) as u64
    } else {
        MIN_PAUSE_MICROS
    }
}

/// The pause after a broadcast beat that took `elapsed_micros`.
pub fn pause_after(elapsed_micros: u64) -> (r: u64)
    ensures
        r == pause_for(elapsed_micros),
        r >= MIN_PAUSE_MICROS,
        r <= TICK_INTERVAL_MICROS,
{
    if elapsed_micros <= TICK_INTERVAL_MICROS - MIN_PAUSE_MICROS {
        TICK_INTERVAL_MICROS - elapsed_micros
    } else {
        MIN_PAUSE_MICROS
    }
}

/// Decodes an inbound frame; a frame that encodes no message gives `None`.
pub fn parse_message(frame: &[u8]) -> (r: Option<GameServerMessage>)
    ensures
        match r {
            Some(m) => decoded(frame@) == Some(m@),
            None => decoded(frame@) is None,
        },
{
    match decode(frame) {
        Ok(m) => Some(m),
        Err(_) => None,
    }
}

pub struct Relay<H> {
    ids: IdAllocator,
    peers: IdMap<Peer<H>>,
}

impl<H> Relay<H> {
    pub closed spec fn wf(&self) -> bool {
        &&& self.ids.wf()
        &&& self.peers.wf()
        &&& forall|k: u16| #[trigger]
            self.peers@.contains_key(k) ==> self.peers@[k].state.id == k
                && self.ids.issued().contains(k)
    }

    /// The state store: each live identifier's last pose.
    pub closed spec fn store(&self) -> Map<u16, RemoteState> {
        self.peers@.map_values(|p: Peer<H>| p.state)
    }

    /// The connection registry: each live identifier's delivery handle.
    pub closed spec fn registry(&self) -> Map<u16, H> {
        self.peers@.map_values(|p: Peer<H>| p.handle)
    }

    /// Every identifier handed out so far, live or gone.
    pub closed spec fn issued(&self) -> Set<u16> {
        self.ids.issued()
    }

    /// The identifier that the next connection gets, if any is left.
    pub closed spec fn upcoming(&self) -> Option<u16> {
        self.ids.upcoming()
    }

    /// A relay with no connection, whose identifiers are drawn from `ids`.
    pub fn new(ids: IdAllocator) -> (r: Relay<H>)
        requires
            ids.wf(),
        ensures
            r.wf(),
            r.store() == Map::<u16, RemoteState>::empty(),
            r.registry() == Map::<u16, H>::empty(),
            r.upcoming() == ids.upcoming(),
            r.issued() == ids.issued(),
    {
        let r = Relay { ids, peers: IdMap::new() };
        assert(r.store() =~= Map::<u16, RemoteState>::empty());
        assert(r.registry() =~= Map::<u16, H>::empty());
        r
    }

    /// Every stored pose carries its own identifier, and the registry and
    /// the store hold the same identifiers, all of them issued.
    pub proof fn lemma_registry_matches_store(&self)
        requires
            self.wf(),
        ensures
            self.registry().dom() == self.store().dom(),
            self.store().dom().subset_of(self.issued()),
            forall|k: u16| #[trigger] self.store().contains_key(k) ==> self.store()[k].id == k,
    {
        assert(self.registry().dom() =~= self.store().dom());
    }

    /// Accepts a connection: allocates an identifier never issued before,
    /// registers `handle` and the spawn pose under it, and returns it with the
    /// `Welcome` frame for that peer. `None` once identifiers are exhausted;
    /// nothing changes then.
    pub fn connect(&mut self, handle: H) -> (r: Option<(u16, Vec<u8>)>)
        requires
            old(self).wf(),
        ensures
            final(self).wf(),
            match r {
                Some((id, frame)) => {
                    &&& old(self).upcoming() == Some(id)
                    &&& !old(self).issued().contains(id)
                    &&& !old(self).registry().contains_key(id)
                    &&& !old(self).store().contains_key(id)
                    &&& final(self).store() == old(self).store().insert(id, spawn_state(id))
                    &&& final(self).registry() == old(self).registry().insert(id, handle)
                    &&& final(self).issued() == old(self).issued().insert(id)
                    &&& frame@ == encoded(MessageModel::Welcome(id))
                },
                None => {
                    &&& old(self).upcoming() is None
                    &&& final(self).store() == old(self).store()
                    &&& final(self).registry() == old(self).registry()
                    &&& final(self).issued() == old(self).issued()
                },
            },
    {
        match self.ids.next() {
            Some(id) => {
                let ghost h = handle;
                let state = RemoteState { id, position: Position { x: 0, y: 0 }, rotation: 0 };
                self.peers.insert(id, Peer { handle, state });
                proof {
                    assert(!old(self).peers@.contains_key(id));
                    assert(self.store() =~= old(self).store().insert(id, spawn_state(id)));
                    assert(self.registry() =~= old(self).registry().insert(id, h));
                    assert forall|k: u16| #[trigger]
                        self.peers@.contains_key(k) implies self.peers@[k].state.id == k
                        && self.ids.issued().contains(k) by {
                        if k != id {
                            assert(old(self).peers@.contains_key(k));
                        }
                    }
                }
                let frame = encode(&GameServerMessage::Welcome(id));
                Some((id, frame))
            },
            None => {
                proof {
                    assert(self.store() =~= old(self).store());
                    assert(self.registry() =~= old(self).registry());
                }
                None
            },
        }
    }

    /// Applies a message from the peer `my_id`. A `ClientUpdate` from a live
    /// peer replaces that peer's pose, with the identifier in the payload
    /// replaced by `my_id`; every other message, or a peer that is not live,
    /// changes nothing. Returns whether the pose was replaced.
    pub fn user_message(&mut self, my_id: u16, msg: &GameServerMessage) -> (r: bool)
        requires
            old(self).wf(),
        ensures
            final(self).wf(),
            final(self).registry() == old(self).registry(),
            final(self).issued() == old(self).issued(),
            final(self).upcoming() == old(self).upcoming(),
            r == (msg@ is ClientUpdate && old(self).store().contains_key(my_id)),
            match msg@ {
                MessageModel::ClientUpdate(s) if r => final(self).store() == old(self).store().insert(
                    my_id,
                    RemoteState { id: my_id, position: s.position, rotation: s.rotation },
                ),
                _ => final(self).store() == old(self).store(),
            },
    {
        match msg {
            GameServerMessage::ClientUpdate(s) => {
                match self.peers.remove(my_id) {
                    Some(peer) => {
                        let state = RemoteState {
                            id: my_id,
                            position: s.position,
                            rotation: s.rotation,
                        };
                        self.peers.insert(my_id, Peer { handle: peer.handle, state });
                        proof {
                            assert(self.store() =~= old(self).store().insert(my_id, state));
                            assert(self.registry() =~= old(self).registry());
                            assert forall|k: u16| #[trigger]
                                self.peers@.contains_key(k) implies self.peers@[k].state.id == k
                                && self.ids.issued().contains(k) by {
                                assert(old(self).peers@.contains_key(k));
                            }
                        }
                        true
                    },
                    None => {
                        proof {
                            assert(self.store() =~= old(self).store());
                            assert(self.registry() =~= old(self).registry());
                        }
                        false
                    },
                }
            },
            _ => false,
        }
    }

    /// Handles one inbound frame from the peer `my_id`: a frame that encodes
    /// no message is dropped and reported, the connection staying as it was;
    /// a message is applied as `user_message` says.
    pub fn receive(&mut self, my_id: u16, frame: &[u8]) -> (r: Inbound)
        requires
            old(self).wf(),
        ensures
            final(self).wf(),
            final(self).registry() == old(self).registry(),
            final(self).issued() == old(self).issued(),
            final(self).upcoming() == old(self).upcoming(),
            match decoded(frame@) {
                None => r == Inbound::Malformed(decode_error(frame@)) && final(self).store()
                    == old(self).store(),
                Some(MessageModel::ClientUpdate(s)) => if old(self).store().contains_key(my_id) {
                    r == Inbound::Applied && final(self).store() == old(self).store().insert(
                        my_id,
                        RemoteState { id: my_id, position: s.position, rotation: s.rotation },
                    )
                } else {
                    r == Inbound::Ignored && final(self).store() == old(self).store()
                },
                Some(_) => r == Inbound::Ignored && final(self).store() == old(self).store(),
            },
    {
        match decode(frame) {
            Ok(msg) => {
                if self.user_message(my_id, &msg) {
                    Inbound::Applied
                } else {
                    Inbound::Ignored
                }
            },
            Err(e) => Inbound::Malformed(e),
        }
    }

    /// The identifiers of all live peers, each once.
    pub fn recipients(&self) -> (r: Vec<u16>)
        requires
            self.wf(),
        ensures
            names_all(r@, self.registry().dom()),
    {
        let r = self.peers.key_list();
        assert(self.registry().dom() =~= self.peers@.dom());
        r
    }

    /// The delivery handle of the peer `id`, if it is live.
    pub fn handle(&self, id: u16) -> (r: Option<&H>)
        requires
            self.wf(),
        ensures
            match r {
                Some(h) => self.registry().contains_key(id) && *h == self.registry()[id],
                None => !self.registry().contains_key(id),
            },
    {
        match self.peers.get(id) {
            Some(p) => Some(&p.handle),
            None => None,
        }
    }

    /// Closes the connection of `id`: removes it from the registry and the
    /// store, and returns the `Goodbye` frame for every peer still live.
    /// `None` where `id` is not live; nothing changes then.
    pub fn disconnect(&mut self, id: u16) -> (r: Option<Delivery>)
        requires
            old(self).wf(),
        ensures
            final(self).wf(),
            final(self).store() == old(self).store().remove(id),
            final(self).registry() == old(self).registry().remove(id),
            final(self).issued() == old(self).issued(),
            final(self).upcoming() == old(self).upcoming(),
            r is Some <==> old(self).registry().contains_key(id),
            r matches Some(d) ==> d.frame@ == encoded(MessageModel::Goodbye(id)) && names_all(
                d.recipients@,
                final(self).registry().dom(),
            ),
    {
        let removed = self.peers.remove(id);
        proof {
            assert(self.store() =~= old(self).store().remove(id));
            assert(self.registry() =~= old(self).registry().remove(id));
            assert forall|k: u16| #[trigger]
                self.peers@.contains_key(k) implies self.peers@[k].state.id == k
                && self.ids.issued().contains(k) by {
                assert(old(self).peers@.contains_key(k));
            }
        }
        match removed {
            Some(_) => {
                let recipients = self.recipients();
                let frame = encode(&GameServerMessage::Goodbye(id));
                Some(Delivery { recipients, frame })
            },
            None => None,
        }
    }

    /// The poses of all live peers, each once.
    pub fn snapshot(&self) -> (r: Vec<RemoteState>)
        requires
            self.wf(),
        ensures
            is_snapshot(r@, self.store()),
    {
        let n = self.peers.len();
        let mut r: Vec<RemoteState> = Vec::new();
        let mut i: usize = 0;
        proof { self.peers.lemma_keys() }
        while i < n
            invariant
                self.wf(),
                n == self.peers.keys().len(),
                i <= n,
                r@.len() == i,
                forall|j: int|
                    0 <= j < i ==> #[trigger] r@[j] == self.peers@[self.peers.keys()[j]].state,
                forall|j: int| 0 <= j < i ==> #[trigger] r@[j].id == self.peers.keys()[j],
            decreases n - i,
        {
            let p = self.peers.value_at(i);
            r.push(p.state);
            i = i + 1;
        }
        proof {
            let keys = self.peers.keys();
            self.peers.lemma_keys();
            assert forall|j: int| 0 <= j < r@.len() implies #[trigger] self.store().contains_key(
                r@[j].id,
            ) && self.store()[r@[j].id] == r@[j] by {
                assert(r@[j].id == keys[j]);
                assert(keys.contains(keys[j]));
            }
            assert forall|a: int, b: int| 0 <= a < b < r@.len() implies r@[a].id != r@[b].id by {
                assert(r@[a].id == keys[a]);
                assert(r@[b].id == keys[b]);
            }
            assert forall|k: u16| #[trigger] self.store().contains_key(k) implies exists|j: int|
                0 <= j < r@.len() && r@[j].id == k by {
                assert(keys.contains(k));
                let j = choose|j: int| 0 <= j < keys.len() && keys[j] == k;
                assert(r@[j].id == k);
            }
        }
        r
    }

    /// One beat of the broadcast loop: `None` when the store is empty, else
    /// one `ServerUpdate` holding every stored pose once, for every live peer.
    pub fn tick(&self) -> (r: Option<Delivery>)
        requires
            self.wf(),
        ensures
            r is None <==> self.store() == Map::<u16, RemoteState>::empty(),
            r matches Some(d) ==> names_all(d.recipients@, self.registry().dom()) && exists|
                s: Seq<RemoteState>,
            | is_snapshot(s, self.store()) && d.frame@ == encoded(MessageModel::ServerUpdate(s)),
    {
        if self.peers.is_empty() {
            assert(self.store() =~= Map::<u16, RemoteState>::empty());
            return None;
        }
        proof {
            assert(self.store().dom() =~= self.peers@.dom());
            if self.store() == Map::<u16, RemoteState>::empty() {
                assert(self.peers@.dom() =~= Set::<u16>::empty());
            }
        }
        let states = self.snapshot();
        let recipients = self.recipients();
        let msg = GameServerMessage::ServerUpdate(states);
        let frame = encode(&msg);
        Some(Delivery { recipients, frame })
    }
}

/// Once a peer is gone from the store, no snapshot of the store, and so no
/// `ServerUpdate` that `tick` builds from it, holds that peer's pose.
pub proof fn lemma_gone_from_snapshots(m: Map<u16, RemoteState>, gone: u16, s: Seq<RemoteState>)
    requires
        !m.contains_key(gone),
        is_snapshot(s, m),
    ensures
        forall|i: int| 0 <= i < s.len() ==> s[i].id != gone,
{
    assert forall|i: int| 0 <= i < s.len() implies s[i].id != gone by {
        assert(m.contains_key(s[i].id));
    }
}

} // verus!
