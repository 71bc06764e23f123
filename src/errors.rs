//! Error values of the game core.

use vstd::prelude::*;
use vstd::string::StringExecFns;

verus! {

/// A rejected value or move, with a human-readable reason.
#[derive(Debug, Clone)]
pub struct InvalidError {
    pub msg: String,
}

impl InvalidError {
    pub fn new(msg: &str) -> (r: Self)
        ensures
            r.msg@ == msg@,
    {
        InvalidError { msg: msg.to_string() }
    }

    /// The error as shown to people.
    pub fn to_string(&self) -> (r: String)
        ensures
            r@ == "invalid value: "@ + self.msg@,
    {
        String::from_str("invalid value: ").concat(self.msg.as_str())
    }
}

/// A rejected game move.
pub type InvalidMoveError = InvalidError;

/// A value that could not be parsed.
pub type ParseError = InvalidError;

} // verus!

verus! {

/// A game that could not begin, handed back unchanged with the reason.
#[derive(Debug, Clone)]
pub struct GameBeginError<T> {
    pub old_game: T,
    pub msg: String,
}

impl<T> GameBeginError<T> {
    pub fn new(old_game: T, msg: &str) -> (r: Self)
        ensures
            r.old_game == old_game,
            r.msg@ == msg@,
    {
        GameBeginError { old_game, msg: msg.to_string() }
    }

    /// The error as shown to people.
    pub fn to_string(&self) -> (r: String)
        ensures
            r@ == "failed to begin game because: "@ + self.msg@,
    {
        String::from_str("failed to begin game because: ").concat(self.msg.as_str())
    }

    /// The game that could not begin.
    pub fn take_old(self) -> (r: T)
        ensures
            r == self.old_game,
    {
        self.old_game
    }
}

/// A game that could not finish, handed back with the reason.
#[derive(Debug, Clone)]
pub struct GameFinishError<T> {
    pub old_game: T,
    pub msg: String,
}

impl<T> GameFinishError<T> {
    /// The error as shown to people.
    pub fn to_string(&self) -> (r: String)
        ensures
            r@ == "failed to finish game because: "@ + self.msg@,
    {
        String::from_str("failed to finish game because: ").concat(self.msg.as_str())
    }
}

} // verus!
