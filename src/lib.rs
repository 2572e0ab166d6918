//! A line-oriented chat service: the session registry, the message router,
//! the per-connection command state machine and the credential records.

pub mod credentials;
pub mod handler;
pub mod protocol;
pub mod registry;
pub mod text;
