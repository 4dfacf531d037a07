//! Messages exchanged with voters and events published for everyone.

pub mod laws;
pub mod messages;
pub mod publisher;
