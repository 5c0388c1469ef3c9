//! Verified services of a BitDemon lobby and authentication backend.

pub mod auth;
pub mod clock;
pub mod digest;
pub mod lobby;
pub mod octets;
pub mod peer;
pub mod sequences;
pub mod server;
pub mod session;
pub mod text;
pub mod text_laws;
pub mod wire;
