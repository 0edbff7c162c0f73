//! Identifiers, values and the other plain data every layer shares.

pub mod change;
pub mod error;
pub mod ids;
pub mod input;
pub mod log;
pub mod message;
pub mod query;
pub mod subscription;
pub mod table;
pub mod text;
pub mod value;
