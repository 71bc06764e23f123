//! Lobby storage backends. The in-memory store, which holds live sockets and
//! locks, lives with the server.

use vstd::prelude::*;

verus! {

/// A lobby store kept in redis; no lobby state is persisted yet.
#[derive(Debug, Clone, Copy)]
pub struct RedisGameDB {}

} // verus!
