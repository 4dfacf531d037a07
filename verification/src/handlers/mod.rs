//! What is done on a voter's request.

pub mod ballot;
pub mod cast_vote;
pub mod laws;
pub mod token;
