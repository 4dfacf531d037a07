//! Core of an election commission: ballots, counting, voting requests,
//! published events and configuration.

pub mod auth;
pub mod config;
pub mod counting;
pub mod digest;
pub mod handlers;
pub mod hex_digits;
pub mod json;
pub mod json_laws;
pub mod nostr;
pub mod rules;
pub mod text;
pub mod time;
pub mod types;
