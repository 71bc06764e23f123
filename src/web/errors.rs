//! Error values of the realtime side.

use vstd::prelude::*;

verus! {

/// A lobby id that is already taken.
#[derive(Debug, Clone)]
pub struct DuplicateLobbyError {
    pub dup_id: String,
}

impl DuplicateLobbyError {
    pub fn new(lobby_id: &str) -> (r: Self)
        ensures
            r.dup_id@ == lobby_id@,
    {
        Self { dup_id: lobby_id.to_string() }
    }
}

/// Forwarding from a connection into the lobby's channel broke.
#[derive(Debug, Clone)]
pub struct ForwardingError {
    pub msg: String,
}

impl ForwardingError {
    pub fn new(msg: &str) -> (r: Self)
        ensures
            r.msg@ == msg@,
    {
        Self { msg: msg.to_string() }
    }
}

/// A request that the asker may not make.
#[derive(Debug, Clone)]
pub struct NotAllowedError {
    pub msg: String,
}

impl NotAllowedError {
    pub fn new(msg: &str) -> (r: Self)
        ensures
            r.msg@ == msg@,
    {
        Self { msg: msg.to_string() }
    }
}

/// A connection that could not be reached, written to or closed.
#[derive(Debug, Clone)]
pub enum WebSocketError {
    CloseError(String),
    WSNotFoundError(String),
    SendError(String),
    PipeSetupError(String),
}

} // verus!
