//! Request payloads.

use vstd::prelude::*;
use crate::game::Team;

verus! {

/// Request payload for a team change.
#[derive(Debug, Clone, Copy)]
pub struct TeamChangeRequest {
    pub team: Team,
}

} // verus!
