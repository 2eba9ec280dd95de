//! What a device exchanges with its peers, and the decisions it takes on what they send.

pub mod batch;
pub mod connection_laws;
pub mod dial;
pub mod exchange_laws;
pub mod fetch;
pub mod handshake;
pub mod messages;
pub mod plan;
pub mod plan_laws;
pub mod plan_purge;
pub mod plan_tags;
pub mod pull_scheduler;
pub mod reconcile_laws;
pub mod relay;
pub mod session;
pub mod session_laws;
pub mod tag_laws;
pub mod transfer;
