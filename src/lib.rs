//! Core of a real-time state relay for a multiplayer session: the wire
//! messages and their binary codec, the identifier allocator, the server's
//! per-peer registry with its broadcast decisions, and the client's view of
//! the other players.

pub mod codec;
pub mod messages;
pub mod idmap;
pub mod ids;
pub mod relay;
pub mod client;
