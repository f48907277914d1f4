//! The game-side data model: the catalogue of organisms and tools a server
//! publishes ([`sys`]) and what a player owns ([`user`]).
use vstd::prelude::*;

pub mod sys;
pub mod user;

verus! {

/// Identifier of a game entity.
pub type Id = usize;

/// A level or grade value.
pub type Grade = u32;

/// Failures of the game-data layer.
#[derive(Debug)]
pub enum ErrorKind {
    /// The process-wide game catalogue has not been loaded yet.
    DataNotInitialized,
    /// Any other failure, described in text.
    Other(String),
}

impl ErrorKind {
    /// Wraps a message as an [`ErrorKind::Other`].
    pub fn other_str(string: &str) -> (r: Self)
        ensures
            r matches ErrorKind::Other(s) && s@ == string@,
    {
        ErrorKind::Other(string.to_owned())
    }
}

/// A logged-in player, as far as this layer models one.
pub struct GameUser {}

} // verus!
