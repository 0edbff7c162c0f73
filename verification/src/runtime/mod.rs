//! The world runtime: ownership, lifecycle, queues and tick scheduling.

pub mod config;
pub mod coordinator;
pub mod error;
pub mod event;
pub mod laws;
pub mod metrics;
pub mod model;
pub mod operations;
pub mod order;
pub mod partition;
pub mod report;
pub mod setup;
pub mod steps;
pub mod tick;
pub mod worker;
pub mod world;
