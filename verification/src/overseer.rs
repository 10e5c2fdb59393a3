//! The supervisor: a pool of resources and the factories that watch it.
//!
//! Every change to the pool that goes through the supervisor is told to all
//! factories, in the order in which they joined. What they were told, and
//! what was done with their handles, is kept as a record that the contracts
//! speak of.

use crate::factory::Factory;
use crate::factory::Handle;
use crate::factory_set::Change;
use crate::factory_set::FactorySet;
use crate::factory_set::Round;
use crate::factory_set::Supervision;
use crate::factory_set::handles_of;
use crate::factory_set::told;
use crate::resource::Key;
use crate::resource::Resource;
use crate::resource::ResourcePool;
use crate::resource::holds;
use crate::resource::key_of;
use crate::resource::resource_type;
use crate::resource::typed;
use std::any::TypeId;
use vstd::prelude::*;

verus! {

/// Where a type stands in its life in the pool, going by what the factories
/// were told of it.
pub enum Phase {
    /// Not in the pool: never inserted, or removed since.
    Absent,
    /// In the pool: inserted, perhaps updated, not removed since.
    Present,
    /// The factories were told something out of turn: an insertion of what
    /// was there, or an update or removal of what was not.
    Broken,
}

/// How one change moves a type through its life: `on_insert` opens it,
/// `on_update` may follow any number of times, `on_remove` ends it.
pub open spec fn phase_after(phase: Phase, change: Change) -> Phase {
    match (phase, change) {
        (Phase::Absent, Change::Inserted(_)) => Phase::Present,
        (Phase::Present, Change::Updated(_)) => Phase::Present,
        (Phase::Present, Change::Removed(_)) => Phase::Absent,
        _ => Phase::Broken,
    }
}

/// Where the type with the identity `id` stands after the given rounds.
pub open spec fn phase(rounds: Seq<Round>, id: TypeId) -> Phase
    decreases rounds.len(),
{
    if rounds.len() == 0 {
        Phase::Absent
    } else if rounds.last().change.id() == id {
        phase_after(phase(rounds.drop_last(), id), rounds.last().change)
    } else {
        phase(rounds.drop_last(), id)
    }
}

/// What can be seen of a supervisor.
#[verifier::reject_recursive_types(T)]
pub struct Oversight<T> {
    /// The pool: for the identity of each stored type, its value.
    pub pool: Map<TypeId, Resource>,
    /// The factories' slots and the record of what they were told.
    pub supervision: Supervision<T>,
}

impl<T> Oversight<T> {
    /// The invariant of a supervisor: that of its factories, and that every
    /// change was told while the pool held a resource of the type it is
    /// about. So a factory that is told of a removal still finds the
    /// resource in the pool.
    pub open spec fn wf(self) -> bool {
        &&& self.supervision.wf()
        &&& forall|k: int|
            0 <= k < self.supervision.rounds.len() ==> (
            #[trigger] self.supervision.rounds[k]).pool.contains_key(
                self.supervision.rounds[k].change.id(),
            )
    }

    /// The factories were told of every type's life in turn, and the pool
    /// holds exactly the types whose life is open: for each type, `on_insert`
    /// came first, then any number of `on_update`, then `on_remove`, and so
    /// on from the start.
    pub open spec fn disciplined(self) -> bool {
        forall|id: TypeId|
            #[trigger] phase(self.supervision.rounds, id) == if self.pool.contains_key(id) {
                Phase::Present
            } else {
                Phase::Absent
            }
    }
}

/// `after` is `before` with `resource` put into the pool under the identity
/// of its type, and every factory then told of the insertion, with the pool
/// as it then was.
pub open spec fn inserting<T>(before: Oversight<T>, after: Oversight<T>, resource: Resource) -> bool {
    &&& after.pool == before.pool.insert(resource_type(resource), resource)
    &&& told(
        before.supervision,
        after.supervision,
        Change::Inserted(resource_type(resource)),
        after.pool,
    )
}

/// `after` is `before` with `resource` in the place of the pool's value of
/// the same type, and every factory then told of the update, with the pool
/// as it then was; or, where the pool held no value of that type, `after` is
/// `before`.
pub open spec fn updating<T>(before: Oversight<T>, after: Oversight<T>, resource: Resource) -> bool {
    if before.pool.contains_key(resource_type(resource)) {
        &&& after.pool == before.pool.insert(resource_type(resource), resource)
        &&& told(
            before.supervision,
            after.supervision,
            Change::Updated(resource_type(resource)),
            after.pool,
        )
    } else {
        after == before
    }
}

/// `after` is `before` with every factory told that the resource of the type
/// with the identity `id` leaves, while it was still in the pool, and with
/// that resource then taken out; or, where the pool held no such resource,
/// `after` is `before`.
pub open spec fn removing<T>(before: Oversight<T>, after: Oversight<T>, id: TypeId) -> bool {
    if before.pool.contains_key(id) {
        &&& after.pool == before.pool.remove(id)
        &&& told(before.supervision, after.supervision, Change::Removed(id), before.pool)
    } else {
        after == before
    }
}

/// `after` is `before` with `resource` inserted; or, where the pool held a
/// value of the type of `resource`, `after` is `before`.
pub open spec fn inserting_if_absent<T>(
    before: Oversight<T>,
    after: Oversight<T>,
    resource: Resource,
) -> bool {
    if before.pool.contains_key(resource_type(resource)) {
        after == before
    } else {
        inserting(before, after, resource)
    }
}

/// `after` is `before` with the pool's value of the type of `resource`
/// updated; or, where the pool held none, with `resource` inserted.
pub open spec fn upserting<T>(before: Oversight<T>, after: Oversight<T>, resource: Resource) -> bool {
    if before.pool.contains_key(resource_type(resource)) {
        updating(before, after, resource)
    } else {
        inserting(before, after, resource)
    }
}

/// One more round moves the type it is about and leaves every other type
/// where it stood.
pub proof fn lemma_phase_push(rounds: Seq<Round>, round: Round, id: TypeId)
    ensures
        phase(rounds.push(round), id) == if round.change.id() == id {
            phase_after(phase(rounds, id), round.change)
        } else {
            phase(rounds, id)
        },
{
    assert(rounds.push(round).drop_last() =~= rounds);
}

/// Inserting a resource of a type that the pool does not hold keeps the
/// factories in step with the pool.
pub proof fn lemma_inserting_disciplined<T>(
    before: Oversight<T>,
    after: Oversight<T>,
    resource: Resource,
)
    requires
        before.disciplined(),
        !before.pool.contains_key(resource_type(resource)),
        inserting(before, after, resource),
    ensures
        after.disciplined(),
{
    assert forall|id: TypeId|
        #[trigger] phase(after.supervision.rounds, id) == if after.pool.contains_key(id) {
            Phase::Present
        } else {
            Phase::Absent
        } by {
        lemma_phase_push(before.supervision.rounds, after.supervision.rounds.last(), id);
        assert(phase(before.supervision.rounds, id) == if before.pool.contains_key(id) {
            Phase::Present
        } else {
            Phase::Absent
        });
    }
}

/// Updating keeps the factories in step with the pool.
pub proof fn lemma_updating_disciplined<T>(
    before: Oversight<T>,
    after: Oversight<T>,
    resource: Resource,
)
    requires
        before.disciplined(),
        updating(before, after, resource),
    ensures
        after.disciplined(),
{
    if before.pool.contains_key(resource_type(resource)) {
        assert forall|id: TypeId|
            #[trigger] phase(after.supervision.rounds, id) == if after.pool.contains_key(id) {
                Phase::Present
            } else {
                Phase::Absent
            } by {
            lemma_phase_push(before.supervision.rounds, after.supervision.rounds.last(), id);
            assert(phase(before.supervision.rounds, id) == if before.pool.contains_key(id) {
                Phase::Present
            } else {
                Phase::Absent
            });
        }
    }
}

/// Removing keeps the factories in step with the pool.
pub proof fn lemma_removing_disciplined<T>(before: Oversight<T>, after: Oversight<T>, gone: TypeId)
    requires
        before.disciplined(),
        removing(before, after, gone),
    ensures
        after.disciplined(),
{
    if before.pool.contains_key(gone) {
        assert forall|id: TypeId|
            #[trigger] phase(after.supervision.rounds, id) == if after.pool.contains_key(id) {
                Phase::Present
            } else {
                Phase::Absent
            } by {
            lemma_phase_push(before.supervision.rounds, after.supervision.rounds.last(), id);
            assert(phase(before.supervision.rounds, id) == if before.pool.contains_key(id) {
                Phase::Present
            } else {
                Phase::Absent
            });
        }
    }
}

/// Where the factories were never told anything out of turn about a type,
/// each change of that type came in its turn: an insertion when the type was
/// absent, an update or a removal when it was present. So what a factory
/// that was there from the start is told of one type is `on_insert`, then
/// any number of `on_update`, then `on_remove`, and then the same again.
pub proof fn lemma_in_turn(rounds: Seq<Round>, k: int)
    requires
        0 <= k < rounds.len(),
        phase(rounds, rounds[k].change.id()) != Phase::Broken,
    ensures
        phase(rounds.take(k), rounds[k].change.id()) == match rounds[k].change {
            Change::Inserted(_) => Phase::Absent,
            Change::Updated(_) => Phase::Present,
            Change::Removed(_) => Phase::Present,
        },
    decreases rounds.len(),
{
    let id = rounds[k].change.id();
    if k == rounds.len() - 1 {
        assert(rounds.take(k) =~= rounds.drop_last());
    } else {
        assert(rounds.drop_last()[k] == rounds[k]);
        assert(rounds.drop_last().take(k) =~= rounds.take(k));
        lemma_in_turn(rounds.drop_last(), k);
    }
}

/// A supervisor whose factories are in step with its pool has never told
/// them anything out of turn.
pub proof fn lemma_disciplined_in_turn<T>(overseer: Oversight<T>, k: int)
    requires
        overseer.disciplined(),
        0 <= k < overseer.supervision.rounds.len(),
    ensures
        phase(overseer.supervision.rounds.take(k), overseer.supervision.rounds[k].change.id())
            == match overseer.supervision.rounds[k].change {
            Change::Inserted(_) => Phase::Absent,
            Change::Updated(_) => Phase::Present,
            Change::Removed(_) => Phase::Present,
        },
{
    let rounds = overseer.supervision.rounds;
    assert(phase(rounds, rounds[k].change.id()) != Phase::Broken);
    lemma_in_turn(rounds, k);
}

/// Any of the three changes keeps the supervisor's invariant.
pub proof fn lemma_change_keeps_wf<T>(
    before: Oversight<T>,
    after: Oversight<T>,
    change: Change,
    pool: Map<TypeId, Resource>,
)
    requires
        before.wf(),
        after.supervision.wf(),
        told(before.supervision, after.supervision, change, pool),
        pool.contains_key(change.id()),
    ensures
        after.wf(),
{
    assert forall|k: int| 0 <= k < after.supervision.rounds.len() implies (
    #[trigger] after.supervision.rounds[k]).pool.contains_key(
        after.supervision.rounds[k].change.id(),
    ) by {
        if k < before.supervision.rounds.len() {
            assert(after.supervision.rounds[k] == before.supervision.rounds[k]);
        }
    }
}

/// A supervisor: a pool of resources, and factories that are told of what
/// happens in it.
#[verifier::reject_recursive_types(T)]
pub struct Overseer<T> {
    map: ResourcePool,
    factory_set: FactorySet<T>,
}

impl<T> View for Overseer<T> {
    type V = Oversight<T>;

    closed spec fn view(&self) -> Oversight<T> {
        Oversight { pool: self.map@, supervision: self.factory_set@ }
    }
}

impl<T: Handle> Overseer<T> {
    /// The invariant that every function of the supervisor keeps.
    pub closed spec fn wf(&self) -> bool {
        &&& self.map.wf()
        &&& self@.wf()
    }

    /// A supervisor with an empty pool and no factories.
    pub fn new() -> (overseer: Self)
        ensures
            overseer.wf(),
            overseer@.disciplined(),
            overseer@.pool == Map::<TypeId, Resource>::empty(),
            overseer@.supervision.slots.len() == 0,
            overseer@.supervision.rounds.len() == 0,
    {
        Overseer { map: ResourcePool::new(), factory_set: FactorySet::new() }
    }

    /// Whether the pool holds a resource of the type with the identity `id`.
    pub fn contains_id(&self, id: TypeId) -> (found: bool)
        requires
            self.wf(),
        ensures
            found == self@.pool.contains_key(id),
    {
        self.map.contains_id(id)
    }

    /// Puts `resource` into the pool, in the place of the value of the same
    /// type if there is one, and tells every factory of an insertion. Hands
    /// back the value that was replaced.
    pub fn insert_erased(&mut self, resource: Resource) -> (previous: Option<Resource>)
        requires
            old(self).wf(),
        ensures
            final(self).wf(),
            inserting(old(self)@, final(self)@, resource),
            previous == if old(self)@.pool.contains_key(resource_type(resource)) {
                Some(old(self)@.pool[resource_type(resource)])
            } else {
                None
            },
            old(self)@.disciplined() && previous is None ==> final(self)@.disciplined(),
    {
        let id = resource.type_id();
        let previous = self.map.insert_resource(resource);
        self.factory_set.on_add(&self.map, &id);
        proof {
            lemma_change_keeps_wf(old(self)@, self@, Change::Inserted(id), self@.pool);
            if old(self)@.disciplined() && previous is None {
                lemma_inserting_disciplined(old(self)@, self@, resource);
            }
        }
        previous
    }

    /// Puts `resource` in the place of the pool's value of the same type and
    /// tells every factory of the update. Where the pool holds no value of
    /// that type, nothing happens and `resource` is dropped.
    pub fn update_erased(&mut self, resource: Resource) -> (previous: Option<Resource>)
        requires
            old(self).wf(),
        ensures
            final(self).wf(),
            updating(old(self)@, final(self)@, resource),
            previous == if old(self)@.pool.contains_key(resource_type(resource)) {
                Some(old(self)@.pool[resource_type(resource)])
            } else {
                None
            },
            old(self)@.disciplined() ==> final(self)@.disciplined(),
    {
        let id = resource.type_id();
        if !self.map.contains_id(id) {
            return None;
        }
        let previous = self.map.insert_resource(resource);
        self.factory_set.on_update(&self.map, &id);
        proof {
            lemma_change_keeps_wf(old(self)@, self@, Change::Updated(id), self@.pool);
            if old(self)@.disciplined() {
                lemma_updating_disciplined(old(self)@, self@, resource);
            }
        }
        previous
    }

    /// Tells every factory that the resource of the type with the identity
    /// `id` leaves, and then takes it out of the pool. Where the pool holds
    /// no such resource, nothing happens.
    pub fn remove_id(&mut self, id: TypeId) -> (removed: Option<Resource>)
        requires
            old(self).wf(),
        ensures
            final(self).wf(),
            removing(old(self)@, final(self)@, id),
            removed == if old(self)@.pool.contains_key(id) {
                Some(old(self)@.pool[id])
            } else {
                None
            },
            old(self)@.disciplined() ==> final(self)@.disciplined(),
    {
        if !self.map.contains_id(id) {
            return None;
        }
        self.factory_set.on_remove(&self.map, &id);
        let removed = self.map.remove_resource(id);
        proof {
            lemma_change_keeps_wf(old(self)@, self@, Change::Removed(id), old(self)@.pool);
            if old(self)@.disciplined() {
                lemma_removing_disciplined(old(self)@, self@, id);
            }
        }
        removed
    }

    /// Adds a factory that builds only when one of its callbacks asks for a
    /// restart.
    pub fn insert_factory_manual<F>(&mut self, factory: F) where
        F: Factory<Handle = T> + Send + Sync + 'static,

        requires
            old(self).wf(),
        ensures
            final(self).wf(),
            final(self)@.pool == old(self)@.pool,
            final(self)@.supervision.rounds == old(self)@.supervision.rounds,
            final(self)@.supervision.slots == old(self)@.supervision.slots.push(
                final(self)@.supervision.slots.last(),
            ),
            final(self)@.supervision.slots.last().autobuild == false,
            final(self)@.supervision.slots.last().handle is None,
    {
        self.factory_set.insert(factory, false);
    }

    /// Adds a factory that is asked to build after every insertion for as
    /// long as it holds no handle.
    pub fn insert_factory_autobuild<F>(&mut self, factory: F) where
        F: Factory<Handle = T> + Send + Sync + 'static,

        requires
            old(self).wf(),
        ensures
            final(self).wf(),
            final(self)@.pool == old(self)@.pool,
            final(self)@.supervision.rounds == old(self)@.supervision.rounds,
            final(self)@.supervision.slots == old(self)@.supervision.slots.push(
                final(self)@.supervision.slots.last(),
            ),
            final(self)@.supervision.slots.last().autobuild == true,
            final(self)@.supervision.slots.last().handle is None,
    {
        self.factory_set.insert(factory, true);
    }
    /// What the invariant says of what can be seen from outside.
    pub proof fn lemma_wf(&self)
        requires
            self.wf(),
        ensures
            self@.wf(),
    {
    }

    /// Whether the pool holds a resource of type `R`.
    pub fn contains_resource<R: 'static>(&self) -> (found: bool)
        requires
            self.wf(),
        ensures
            found == self@.pool.contains_key(key_of::<R>()),
    {
        self.map.contains::<R>()
    }

    /// Puts `value` into the pool as its resource of type `R`, in the place
    /// of the one that is there if there is one, and tells every factory of
    /// an insertion. Hands back the value that was replaced.
    pub fn insert_resource<R: 'static + Send + Sync>(&mut self, value: R) -> (previous: Option<R>)
        requires
            old(self).wf(),
        ensures
            final(self).wf(),
            final(self)@.pool.contains_key(key_of::<R>()),
            holds(final(self)@.pool[key_of::<R>()], value),
            inserting(old(self)@, final(self)@, final(self)@.pool[key_of::<R>()]),
            typed(old(self)@.pool, previous),
            old(self)@.disciplined() && !old(self)@.pool.contains_key(key_of::<R>())
                ==> final(self)@.disciplined(),
    {
        let resource = Resource::new(value);
        proof {
            if self@.pool.contains_key(key_of::<R>()) {
                self.map.lemma_keyed_by_type(key_of::<R>());
            }
        }
        let previous = self.insert_erased(resource);
        match previous {
            Some(replaced) => replaced.into_inner(),
            None => None,
        }
    }

    /// Puts `value` in the place of the pool's resource of type `R` and tells
    /// every factory of the update. Where the pool holds no resource of
    /// that type, nothing happens.
    pub fn update_resource<R: 'static + Send + Sync>(&mut self, value: R) -> (previous: Option<R>)
        requires
            old(self).wf(),
        ensures
            final(self).wf(),
            old(self)@.disciplined() ==> final(self)@.disciplined(),
            if old(self)@.pool.contains_key(key_of::<R>()) {
                &&& final(self)@.pool.contains_key(key_of::<R>())
                &&& holds(final(self)@.pool[key_of::<R>()], value)
                &&& updating(old(self)@, final(self)@, final(self)@.pool[key_of::<R>()])
            } else {
                final(self)@ == old(self)@
            },
            typed(old(self)@.pool, previous),
    {
        let resource = Resource::new(value);
        proof {
            if self@.pool.contains_key(key_of::<R>()) {
                self.map.lemma_keyed_by_type(key_of::<R>());
            }
        }
        let previous = self.update_erased(resource);
        match previous {
            Some(replaced) => replaced.into_inner(),
            None => None,
        }
    }

    /// Tells every factory that the resource of type `R` leaves, and then
    /// takes it out of the pool. Where the pool holds no resource of that
    /// type, nothing happens.
    pub fn remove_resource<R: 'static>(&mut self) -> (removed: Option<R>)
        requires
            old(self).wf(),
        ensures
            final(self).wf(),
            old(self)@.disciplined() ==> final(self)@.disciplined(),
            removing(old(self)@, final(self)@, key_of::<R>()),
            typed(old(self)@.pool, removed),
    {
        let id = Key::of::<R>().id();
        proof {
            if self@.pool.contains_key(key_of::<R>()) {
                self.map.lemma_keyed_by_type(key_of::<R>());
            }
        }
        let removed = self.remove_id(id);
        match removed {
            Some(resource) => resource.into_inner(),
            None => None,
        }
    }

    /// Inserts `resource` unless the pool already holds a value of its type;
    /// then nothing happens and `resource` is dropped.
    pub fn insert_if_absent_erased(&mut self, resource: Resource)
        requires
            old(self).wf(),
        ensures
            final(self).wf(),
            inserting_if_absent(old(self)@, final(self)@, resource),
            old(self)@.disciplined() ==> final(self)@.disciplined(),
    {
        let id = resource.type_id();
        if !self.contains_id(id) {
            let _ = self.insert_erased(resource);
        }
    }

    /// Updates the pool's value of the type of `resource` if there is one,
    /// and inserts `resource` otherwise.
    pub fn update_or_insert_erased(&mut self, resource: Resource)
        requires
            old(self).wf(),
        ensures
            final(self).wf(),
            upserting(old(self)@, final(self)@, resource),
            old(self)@.disciplined() ==> final(self)@.disciplined(),
    {
        let id = resource.type_id();
        if self.contains_id(id) {
            let _ = self.update_erased(resource);
        } else {
            let _ = self.insert_erased(resource);
        }
    }

    /// The handles that the factories hold, those of the factories that
    /// joined first coming first.
    pub fn handles(&self) -> (held: Vec<&T>)
        ensures
            held@.len() == handles_of(self@.supervision.slots).len(),
            forall|k: int|
                0 <= k < held@.len() ==> *(#[trigger] held@[k]) == handles_of(
                    self@.supervision.slots,
                )[k],
    {
        self.factory_set.handles()
    }
}

impl<T: Handle> Default for Overseer<T> {
    /// A supervisor with an empty pool and no factories.
    fn default() -> (overseer: Self)
        ensures
            overseer.wf(),
            overseer@.disciplined(),
            overseer@.pool == Map::<TypeId, Resource>::empty(),
            overseer@.supervision.slots.len() == 0,
            overseer@.supervision.rounds.len() == 0,
    {
        Overseer::new()
    }
}

} // verus!
