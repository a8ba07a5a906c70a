//! Library core of a server for the beta 1.8 block-game protocol: the wire
//! codec, the packet grammar, chunk storage and the per-connection state.

pub mod buffer;
pub mod codec;
pub mod packet_ids;
pub mod packets;
pub mod packet_laws;
pub mod protocol;
pub mod text;
pub mod chunk_manager;
pub mod world;
pub mod config;
pub mod player;
pub mod server;
