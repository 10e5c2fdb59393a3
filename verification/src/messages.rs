//! The messages that a supervisor takes when it runs as an actor, and what
//! it does on each.

use crate::factory::Handle;
use crate::overseer::Overseer;
use crate::overseer::inserting;
use crate::overseer::removing;
use crate::overseer::updating;
use crate::overseer::upserting;
use crate::resource::Key;
use crate::resource::Resource;
use crate::resource::holds;
use crate::resource::key_of;
use std::marker::PhantomData;
use vstd::prelude::*;

verus! {

/// Asks for a resource to be added. Where the supervisor already holds one
/// of the same type, the message does nothing.
pub struct InsertResource<R>(R);

impl<R> InsertResource<R> {
    /// The message that carries `value`.
    pub fn new(value: R) -> (message: Self)
        ensures
            message.value() == value,
    {
        InsertResource(value)
    }

    /// The resource that the message carries.
    pub closed spec fn value(self) -> R {
        self.0
    }

    /// Takes the resource out of the message.
    pub fn into_inner(self) -> (value: R)
        ensures
            value == self.value(),
    {
        self.0
    }
}

/// Asks for the resource of type `R` to be removed.
pub struct RemoveResource<R>(PhantomData<R>);

impl<R> RemoveResource<R> {
    /// The message; it carries nothing but its type.
    pub fn new() -> (message: Self) {
        RemoveResource(PhantomData)
    }
}

impl<R> Default for RemoveResource<R> {
    fn default() -> (message: Self) {
        RemoveResource::new()
    }
}

/// Asks for the resource of type `R` to be replaced. Where the supervisor
/// holds none, the message does nothing.
pub struct UpdateResource<R>(R);

impl<R> UpdateResource<R> {
    /// The message that carries `value`.
    pub fn new(value: R) -> (message: Self)
        ensures
            message.value() == value,
    {
        UpdateResource(value)
    }

    /// The resource that the message carries.
    pub closed spec fn value(self) -> R {
        self.0
    }

    /// Takes the resource out of the message.
    pub fn into_inner(self) -> (value: R)
        ensures
            value == self.value(),
    {
        self.0
    }
}

/// Asks for the resource of type `R` to be replaced, or to be added where
/// the supervisor holds none.
pub struct UpdateOrInsertResource<R>(R);

impl<R> UpdateOrInsertResource<R> {
    /// The message that carries `value`.
    pub fn new(value: R) -> (message: Self)
        ensures
            message.value() == value,
    {
        UpdateOrInsertResource(value)
    }

    /// The resource that the message carries.
    pub closed spec fn value(self) -> R {
        self.0
    }

    /// Takes the resource out of the message.
    pub fn into_inner(self) -> (value: R)
        ensures
            value == self.value(),
    {
        self.0
    }
}

impl<T: Handle> Overseer<T> {
    /// On `InsertResource`: inserts the resource unless one of its type is
    /// there already.
    pub fn handle_insert<R: 'static + Send + Sync>(&mut self, msg: InsertResource<R>)
        requires
            old(self).wf(),
        ensures
            final(self).wf(),
            old(self)@.disciplined() ==> final(self)@.disciplined(),
            if old(self)@.pool.contains_key(key_of::<R>()) {
                final(self)@ == old(self)@
            } else {
                &&& final(self)@.pool.contains_key(key_of::<R>())
                &&& holds(final(self)@.pool[key_of::<R>()], msg.value())
                &&& inserting(old(self)@, final(self)@, final(self)@.pool[key_of::<R>()])
            },
    {
        let resource = Resource::new(msg.into_inner());
        self.insert_if_absent_erased(resource);
    }

    /// On `RemoveResource`: removes the resource of type `R` if there is one.
    pub fn handle_remove<R: 'static + Send + Sync>(&mut self, msg: RemoveResource<R>)
        requires
            old(self).wf(),
        ensures
            final(self).wf(),
            old(self)@.disciplined() ==> final(self)@.disciplined(),
            removing(old(self)@, final(self)@, key_of::<R>()),
    {
        let id = Key::of::<R>().id();
        let _ = self.remove_id(id);
    }

    /// On `UpdateResource`: replaces the resource of type `R` if there is
    /// one.
    pub fn handle_update<R: 'static + Send + Sync>(&mut self, msg: UpdateResource<R>)
        requires
            old(self).wf(),
        ensures
            final(self).wf(),
            old(self)@.disciplined() ==> final(self)@.disciplined(),
            if old(self)@.pool.contains_key(key_of::<R>()) {
                &&& final(self)@.pool.contains_key(key_of::<R>())
                &&& holds(final(self)@.pool[key_of::<R>()], msg.value())
                &&& updating(old(self)@, final(self)@, final(self)@.pool[key_of::<R>()])
            } else {
                final(self)@ == old(self)@
            },
    {
        let resource = Resource::new(msg.into_inner());
        let _ = self.update_erased(resource);
    }

    /// On `UpdateOrInsertResource`: replaces the resource of type `R` if
    /// there is one, and inserts it otherwise.
    pub fn handle_update_or_insert<R: 'static + Send + Sync>(
        &mut self,
        msg: UpdateOrInsertResource<R>,
    )
        requires
            old(self).wf(),
        ensures
            final(self).wf(),
            old(self)@.disciplined() ==> final(self)@.disciplined(),
            final(self)@.pool.contains_key(key_of::<R>()),
            holds(final(self)@.pool[key_of::<R>()], msg.value()),
            upserting(old(self)@, final(self)@, final(self)@.pool[key_of::<R>()]),
    {
        let resource = Resource::new(msg.into_inner());
        self.update_or_insert_erased(resource);
    }
}

} // verus!
