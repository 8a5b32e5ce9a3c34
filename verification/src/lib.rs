//! WDIC gateway library.
//!
//! The verified core of a local-network gateway: path security checks,
//! the gateway registry, address and connection bookkeeping, directory
//! search and the decisions the gateway takes on protocol events.

pub mod path;
pub mod security;
pub mod address;
pub mod runtime;
pub mod registry;
pub mod connections;
pub mod directory;
pub mod tokens;
pub mod text;
pub mod sources;
pub mod gateway;
pub mod performance;
pub mod laws;
