//! Persistence and authorization core of a federated messaging homeserver.
pub mod access;
pub mod auth;
pub mod pdu;
pub mod strs;
pub mod identity;
pub mod keys;
pub mod log;
pub mod data;
pub mod laws;
pub mod slots;
pub mod table;
