//! What a factory is asked and what it may answer.
//!
//! A factory watches a pool of resources and, when it finds what it needs
//! there, builds a handle: most often the running end of a child actor. The
//! supervisor tells every factory what happens in the pool, and each answer
//! is an [`Action`] that says what is to become of the factory's handle.

use crate::executor::ShutdownHandle;
use crate::resource::Resource;
use crate::resource::ResourcePool;
use std::any::TypeId;
use vstd::prelude::*;

verus! {

/// What a factory builds. The supervisor knows one thing of it: how to tell
/// it to stop, which it does before it lets go of it.
pub trait Handle {
    /// Stops whatever the handle stands for.
    fn shutdown(&mut self, pool: &ResourcePool)
        requires
            pool.wf(),
    ;
}

/// What the supervisor is to do with the handle of the factory that answered.
#[derive(Debug, Clone, Copy, PartialEq, Eq, PartialOrd, Ord, Structural)]
#[non_exhaustive]
pub enum Action {
    /// Keep the handle, if there is one.
    Noop,
    /// Stop the handle, if there is one, and let go of it.
    Shutdown,
    /// Stop the handle, if there is one, let go of it, and build anew.
    Restart,
}

/// An observer of a resource pool that can build a handle from what the pool
/// holds. Every callback but `build` answers `Noop` unless it is overridden.
pub trait Factory {
    /// What this factory builds.
    type Handle: Handle;

    /// What `build` hands out for a pool that holds `pool`. It names the
    /// result of `build` in contracts and is never run: a factory written
    /// outside verified code gives it any body.
    spec fn would_build(&self, pool: Map<TypeId, Resource>) -> Option<Self::Handle>;

    /// Tries to build a handle from what the pool holds now. `None` says
    /// that something is still missing. What it hands out depends on the
    /// factory as it stands and on what the pool holds, and on nothing
    /// else.
    fn build(&mut self, pool: &ResourcePool) -> (built: Option<Self::Handle>)
        requires
            pool.wf(),
        ensures
            built == old(self).would_build(pool@),
    ;

    /// Called once, right after `build` has handed out `handle`.
    fn on_build(&mut self, pool: &ResourcePool, handle: &Self::Handle) -> (action: Action)
        requires
            pool.wf(),
        default_ensures
            action == Action::Noop,
    {
        Action::Noop
    }

    /// Called when a resource of the type with the identity `type_id` has
    /// been put into the pool.
    fn on_insert(&mut self, pool: &ResourcePool, type_id: &TypeId) -> (action: Action)
        requires
            pool.wf(),
        default_ensures
            action == Action::Noop,
    {
        Action::Noop
    }

    /// Called when the resource of the type with the identity `type_id` has
    /// been replaced.
    fn on_update(&mut self, pool: &ResourcePool, type_id: &TypeId) -> (action: Action)
        requires
            pool.wf(),
        default_ensures
            action == Action::Noop,
    {
        Action::Noop
    }

    /// Called when the resource of the type with the identity `type_id` is
    /// about to leave the pool, which still holds it.
    fn on_remove(&mut self, pool: &ResourcePool, type_id: &TypeId) -> (action: Action)
        requires
            pool.wf(),
        default_ensures
            action == Action::Noop,
    {
        Action::Noop
    }
}

/// The handle of a child actor: what is left of it for its supervisor is the
/// way to ask it to stop.
#[derive(Debug)]
pub struct ActorHandle(ShutdownHandle);

impl ActorHandle {
    /// The handle of the actor that `value` stops.
    pub fn new(value: ShutdownHandle) -> (handle: Self)
        ensures
            handle == Self::of(value),
            handle.stops() == value,
    {
        ActorHandle(value)
    }

    /// The shutdown handle of the actor.
    pub closed spec fn stops(self) -> ShutdownHandle {
        self.0
    }

    /// The handle of the actor that `value` stops.
    pub closed spec fn of(value: ShutdownHandle) -> Self {
        ActorHandle(value)
    }
}

impl Clone for ActorHandle {
    /// One more handle of the same actor.
    fn clone(&self) -> (copy: Self)
        ensures
            copy.stops().channel() == self.stops().channel(),
    {
        ActorHandle(self.0.clone())
    }
}

impl From<ShutdownHandle> for ActorHandle {
    fn from(value: ShutdownHandle) -> (handle: Self) {
        ActorHandle::new(value)
    }
}

impl vstd::std_specs::convert::FromSpecImpl<ShutdownHandle> for ActorHandle {
    open spec fn obeys_from_spec() -> bool {
        true
    }

    open spec fn from_spec(value: ShutdownHandle) -> Self {
        ActorHandle::of(value)
    }
}

impl Handle for ActorHandle {
    /// Asks the actor to stop. That it may be gone already is no fault.
    /// The handle stays what it was.
    fn shutdown(&mut self, pool: &ResourcePool)
        ensures
            final(self).stops() == old(self).stops(),
    {
        let _ = self.0.shutdown();
    }
}

} // verus!
