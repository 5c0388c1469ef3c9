//! Authentication of clients.

pub mod auth_laws;
pub mod auth_proof;
pub mod base64;
pub mod handler;
pub mod message_type;
pub mod pid;
pub mod ticket;
pub mod token;
pub mod wiiu;
