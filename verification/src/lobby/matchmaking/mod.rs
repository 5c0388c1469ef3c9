//! Matchmaking: consoles announce lobbies and find each other's.

pub mod common_addr;
pub mod config;
pub mod election;
pub mod handler;
pub mod info;
pub mod laws;
pub mod lobby_laws;
pub mod query;
pub mod query_laws;
pub mod search_laws;
pub mod store;
