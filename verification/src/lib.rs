//! Verified core of a deterministic realtime game server: the binary wire
//! protocol, the world runtime, reducers, and the network gateway.

pub mod base;
pub mod network;
pub mod reducer;
pub mod runtime;
