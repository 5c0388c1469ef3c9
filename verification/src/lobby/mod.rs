//! The lobby services.

pub mod dml;
pub mod entrance_laws;
pub mod friends;
pub mod lsg;
pub mod matchmaking;
pub mod messaging_laws;
pub mod messaging_service;
pub mod stats_service;
