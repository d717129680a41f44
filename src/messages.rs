//! The messages exchanged between the server and its clients.
//!
//! Floating-point values travel through this library untouched: a coordinate
//! or an angle is held as the IEEE-754 bit pattern of an `f32`, so that what a
//! client reports is relayed bit for bit.

use vstd::prelude::*;

verus! {

/// A 2D position, each coordinate the bit pattern of an `f32`.
#[derive(Clone, Copy, Debug, PartialEq, Eq, Structural)]
pub struct Position {
    pub x: u32,
    pub y: u32,
}

/// The pose that a client reports for its own entity.
#[derive(Clone, Copy, Debug, PartialEq, Eq, Structural)]
pub struct State {
    pub id: u16,
    pub position: Position,
    /// Bit pattern of an `f32` angle in radians.
    pub rotation: u32,
}

/// The pose of one entity as the server relays it.
#[derive(Clone, Copy, Debug, PartialEq, Eq, Structural)]
pub struct RemoteState {
    pub id: u16,
    pub position: Position,
    /// Bit pattern of an `f32` angle in radians.
    pub rotation: u32,
}

/// One frame of the protocol.
#[derive(Clone, Debug, PartialEq, Eq)]
pub enum GameServerMessage {
    /// Server to client: the identifier assigned to the receiving peer.
    Welcome(u16),
    /// Server to client: the identifier of a peer that left.
    Goodbye(u16),
    /// Server to client: the poses of all known entities.
    ServerUpdate(Vec<RemoteState>),
    /// Client to server: the sender's own pose.
    ClientUpdate(State),
}

/// The mathematical value of a message.
pub ghost enum MessageModel {
    Welcome(u16),
    Goodbye(u16),
    ServerUpdate(Seq<RemoteState>),
    ClientUpdate(State),
}

impl View for GameServerMessage {
    type V = MessageModel;

    open spec fn view(&self) -> MessageModel {
        match self {
            GameServerMessage::Welcome(id) => MessageModel::Welcome(*id),
            GameServerMessage::Goodbye(id) => MessageModel::Goodbye(*id),
            GameServerMessage::ServerUpdate(v) => MessageModel::ServerUpdate(v@),
            GameServerMessage::ClientUpdate(s) => MessageModel::ClientUpdate(*s),
        }
    }
}

} // verus!
