//! Relay transport adapter core: peer registry, bounded outbound queues,
//! and the message router that validates and fans out update envelopes.

pub mod config;
pub mod envelope;
pub mod json;
pub mod laws;
pub mod registry;
pub mod router;
