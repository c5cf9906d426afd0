//! A verified core for a small multi-user chat relay speaking an IRC-like
//! line protocol: the wire codec, the session and channel registries, the
//! per-connection protocol state machine, and the routing of replies and
//! forwarded messages to their recipients.
pub mod laws;
pub mod message;
pub mod server;
pub mod user;
