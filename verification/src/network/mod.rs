//! The network layer: wire protocol, transports, sessions and the gateway.

pub mod answers;
pub mod auth;
pub mod checksum;
pub mod config;
pub mod control;
pub mod delivery;
pub mod error;
pub mod frame;
pub mod gateway;
pub mod gateway_fanout;
pub mod gateway_handlers;
pub mod gateway_inbound;
pub mod gateway_laws;
pub mod gateway_metrics;
pub mod gateway_model;
pub mod host;
pub mod laws;
pub mod layout;
pub mod metrics;
pub mod operations;
pub mod passes;
pub mod payload;
pub mod policy;
pub mod protocol;
pub mod rate;
pub mod server;
pub mod session;
pub mod spsc;
pub mod transport;
pub mod wire;
