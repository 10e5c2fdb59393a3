//! The two ways in which an actor or its mailbox can be gone.

use vstd::prelude::*;

verus! {

/// Returned to whoever asks an actor to stop that has already been torn down.
#[derive(Debug, Clone, Copy, PartialEq, Eq, Structural)]
#[non_exhaustive]
pub enum ActorError {
    /// The executor no longer listens for state changes.
    Shutdown,
}

impl ActorError {
    /// The text shown to a user for this error.
    pub fn message(&self) -> (text: String)
        ensures
            text@ == "Actor is already shutdown"@,
    {
        match self {
            ActorError::Shutdown => "Actor is already shutdown".to_owned(),
        }
    }
}

/// Returned by a run of the event loop that ended because nobody can send to
/// the actor any more.
#[derive(Debug, Clone, Copy, PartialEq, Eq, Structural)]
#[non_exhaustive]
pub enum AddressError {
    /// Every address of the actor has been dropped.
    Closed,
}

impl AddressError {
    /// The text shown to a user for this error.
    pub fn message(&self) -> (text: String)
        ensures
            text@ == "All addresses closed for actor"@,
    {
        match self {
            AddressError::Closed => "All addresses closed for actor".to_owned(),
        }
    }
}

} // verus!
