//! What can be sent to an actor.

use vstd::prelude::*;

verus! {

/// Anything that can be sent to an actor: a value that owns what it holds
/// and can be handed to another thread. Every such value is a message.
pub trait Message: 'static + Send {

}

impl<T: 'static + Send> Message for T {

}

} // verus!
