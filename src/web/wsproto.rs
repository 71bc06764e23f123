//! Messages on a player's realtime connection, both ways.

use vstd::prelude::*;
pub use crate::web::auth::{AuthChallenge, AuthResponse};

verus! {

#[derive(Debug, Clone)]
pub enum WSMessage {
    /// Auth challenge response from player to server.
    AuthResponse(AuthResponse),
    /// Any frame that could not be read.
    InvalidMessage,
    /// The server accepted the connection's authentication.
    AuthOk,
    /// The server rejected the connection's authentication.
    AuthReject,
    /// A player picks a tile.
    TileSelect(u8),
    /// A move was refused.
    InvalidMove { reason: Option<String> },
    /// The game changed; the number orders the updates.
    UpdateState(u32),
    /// A team won.
    TeamWinMessage { id: u8, reason: String },
    /// Rosters changed.
    PlayerUpdate,
}

} // verus!
