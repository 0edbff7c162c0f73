//! Reducers: named transactions callers invoke.

pub mod args;
pub mod context;
pub mod definition;
pub mod event;
pub mod registry;
