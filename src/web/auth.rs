//! Player authentication by echo challenge: the server hands a player a
//! random string, and the player proves its identity by sending it back on
//! its connection, tagged with its id.

use vstd::prelude::*;
use crate::players::PlayerId;

verus! {

/// The challenge as the player receives it.
#[derive(Debug, Clone)]
pub struct AuthChallenge {
    /// Player the challenge identifies.
    pub pid: PlayerId,
    /// Challenge string.
    pub challenge: String,
}

/// The challenge as the server keeps it, with the expected answer.
#[derive(Debug, Clone)]
pub struct InternalAuthChallenge {
    pub challenge: AuthChallenge,
    /// Expected response string.
    pub exp_response: String,
}

/// A player's answer.
#[derive(Debug, Clone)]
pub struct AuthResponse {
    /// Player responding.
    pub pid: PlayerId,
    /// The answer.
    pub response: String,
}

/// Whether an answer matches a kept challenge exactly.
pub open spec fn answers(c: InternalAuthChallenge, r: AuthResponse) -> bool {
    c.exp_response@ == r.response@
}

impl InternalAuthChallenge {
    /// The part handed to the player.
    pub fn get_player_challenge(&self) -> (r: &AuthChallenge)
        ensures
            *r == self.challenge,
    {
        &self.challenge
    }

    /// Whether the answer is exactly the expected one.
    pub fn response_matches(&self, response: &AuthResponse) -> (r: bool)
        ensures
            r == answers(*self, *response),
    {
        self.exp_response == response.response
    }
}

/// Relies on uuid's `Uuid::new_v4` and its `Display`: a fresh random id in
/// hyphenated text form, 36 characters. Nothing is promised of its value.
#[verifier::external_body]
fn random_challenge() -> (r: String)
    ensures
        r@.len() == 36,
{
    uuid::Uuid::new_v4().to_string()
}

/// An echo challenge for `pid`: the player must send the challenge string
/// back unchanged. The string is `challenge` when given, else random.
pub fn build_echo_challenge(pid: PlayerId, challenge: Option<String>) -> (r: InternalAuthChallenge)
    ensures
        r.challenge.pid == pid,
        r.exp_response@ == r.challenge.challenge@,
        challenge matches Some(c) ==> r.challenge.challenge@ == c@,
        challenge is None ==> r.challenge.challenge@.len() == 36,
{
    let challenge = match challenge {
        Some(c) => c,
        None => random_challenge(),
    };
    let answer = challenge.clone();
    InternalAuthChallenge { challenge: AuthChallenge { pid, challenge }, exp_response: answer }
}

} // verus!
