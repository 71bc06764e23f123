//! The realtime side of a lobby: authentication, the wire messages, the
//! connection router and the lobby's event handling.

pub mod auth;
pub mod cookies;
pub mod db;
pub mod errors;
pub mod lobby;
pub mod players;
pub mod requests;
pub mod responses;
pub mod wsproto;
