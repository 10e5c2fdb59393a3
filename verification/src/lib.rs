//! A small actor runtime and a resource-driven supervisor for it.
//!
//! The crate holds the parts of the runtime that decide something: how an
//! address gets and keeps its identity, how the event loop of an executor
//! moves between its states, which of two racing polls wins, how a pool of
//! resources keyed by type behaves, and how a set of factories reacts to what
//! happens in that pool. Everything that waits (sending into a full mailbox,
//! receiving, awaiting a handler) is left to the program that embeds the
//! crate; it feeds what it observed into the functions found here.

pub mod address;
pub mod channel;
pub mod error;
pub mod executor;
pub mod factory;
pub mod factory_set;
pub mod message;
pub mod messages;
pub mod overseer;
pub mod race;
pub mod resource;

pub use address::Address;
pub use address::AddressCounter;
pub use address::WeakAddress;
pub use error::ActorError;
pub use error::AddressError;
pub use executor::Context;
pub use executor::Event;
pub use executor::Executor;
pub use executor::Finish;
pub use executor::ShutdownHandle;
pub use executor::State;
pub use factory::Action;
pub use factory::ActorHandle;
pub use factory::Factory;
pub use factory::Handle;
pub use factory_set::FactoryHolder;
pub use factory_set::FactorySet;
pub use factory_set::Step;
pub use message::Message;
pub use messages::InsertResource;
pub use messages::RemoveResource;
pub use messages::UpdateOrInsertResource;
pub use messages::UpdateResource;
pub use overseer::Overseer;
pub use race::race_biased;
pub use race::RaceBiased;
pub use resource::Key;
pub use resource::Resource;
pub use resource::ResourcePool;
