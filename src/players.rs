//! Players as the game sees them: an id and a visible name.

use vstd::prelude::*;
use crate::errors::ParseError;

verus! {

pub type PlayerId = u32;

/// What the game needs to know of a player.
pub trait Player {
    spec fn spec_id(&self) -> PlayerId;

    spec fn spec_name(&self) -> Seq<char>;

    fn get_name(&self) -> (r: &str)
        ensures
            r@ == self.spec_name(),
    ;

    fn get_id(&self) -> (r: &PlayerId)
        ensures
            *r == self.spec_id(),
    ;
}

/// A player type that can be read back from its text form.
pub trait TryDeserialize {
    fn deserialize(s: String) -> Result<Self, ParseError> where Self: Sized;
}

/// A player with a visible name and an internal id.
#[derive(Debug, Clone)]
pub struct SimplePlayer {
    name: String,
    id: u32,
}

impl SimplePlayer {
    pub fn new(name: &str, id: u32) -> (r: Self)
        ensures
            r.spec_name() == name@,
            r.spec_id() == id,
    {
        SimplePlayer { name: name.to_string(), id }
    }

    pub fn set_id(&mut self, id: u32)
        ensures
            final(self).spec_id() == id,
            final(self).spec_name() == old(self).spec_name(),
    {
        self.id = id;
    }

    pub fn set_name(&mut self, name: &str)
        ensures
            final(self).spec_name() == name@,
            final(self).spec_id() == old(self).spec_id(),
    {
        self.name = name.to_string();
    }
}

impl SimplePlayer {
    /// A copy of the player.
    pub fn duplicate(&self) -> (r: Self)
        ensures
            r == *self,
    {
        SimplePlayer { name: self.name.clone(), id: self.id }
    }
}

impl Player for SimplePlayer {
    closed spec fn spec_id(&self) -> PlayerId {
        self.id
    }

    closed spec fn spec_name(&self) -> Seq<char> {
        self.name@
    }

    fn get_name(&self) -> (r: &str) {
        self.name.as_str()
    }

    fn get_id(&self) -> (r: &PlayerId) {
        &self.id
    }
}

} // verus!
