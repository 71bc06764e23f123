//! Response payloads.

use vstd::prelude::*;
use crate::web::auth::AuthChallenge;

verus! {

#[derive(Debug, Clone, Copy, PartialEq, Eq, Structural)]
pub enum OpStatus {
    Success,
    Error,
}

/// Response to creating a player.
#[derive(Debug, Clone)]
pub struct CreatePlayerResp {
    pub status: OpStatus,
    pub challenge: AuthChallenge,
}

/// Response to a team change.
#[derive(Debug, Clone, Copy)]
pub struct TeamChangeResponse {
    pub status: OpStatus,
}

} // verus!
