//! Circular navigation over a host's session list, with the permission gate
//! and the buffering that decide when an inbound command may be acted on.
pub mod directory;
pub mod dispatcher;
pub mod laws;
pub mod message;
pub mod navigator;
