//! The factories of a supervisor, and what is done with their handles.
//!
//! What a factory answers when it is told of a change is for the factory to
//! decide, and so is what it builds. The set keeps a record of the calls it
//! makes, round by round, and its contracts say how the slots and that
//! record hang together: which calls follow from which answer, in which
//! order, and that a slot filled by `build` holds what the factory, as it
//! stood, builds from the pool. The record is written by the set as it goes;
//! the verifier does not see the calls themselves.

use crate::factory::Action;
use crate::factory::Factory;
use crate::factory::Handle;
use crate::resource::Resource;
use crate::resource::ResourcePool;
use std::any::TypeId;
use vstd::prelude::*;

verus! {

/// A factory as the set keeps it: the same callbacks, with the handle's type
/// as a parameter, so that factories of different types fit into one list.
/// Every factory is one; nothing else is.
trait AnyFactory<H>: Send + Sync {
    /// What `build` hands out for a pool that holds `pool`.
    spec fn builds(&self, pool: Map<TypeId, Resource>) -> Option<H>;

    /// `Factory::build`.
    fn build_handle(&mut self, pool: &ResourcePool) -> (built: Option<H>)
        requires
            pool.wf(),
        ensures
            built == old(self).builds(pool@),
    ;

    /// `Factory::on_build`.
    fn built(&mut self, pool: &ResourcePool, handle: &H) -> Action
        requires
            pool.wf(),
    ;

    /// `Factory::on_insert`.
    fn inserted(&mut self, pool: &ResourcePool, type_id: &TypeId) -> Action
        requires
            pool.wf(),
    ;

    /// `Factory::on_update`.
    fn updated(&mut self, pool: &ResourcePool, type_id: &TypeId) -> Action
        requires
            pool.wf(),
    ;

    /// `Factory::on_remove`.
    fn removed(&mut self, pool: &ResourcePool, type_id: &TypeId) -> Action
        requires
            pool.wf(),
    ;
}

impl<F: Factory + Send + Sync> AnyFactory<F::Handle> for F {
    spec fn builds(&self, pool: Map<TypeId, Resource>) -> Option<F::Handle> {
        self.would_build(pool)
    }

    fn build_handle(&mut self, pool: &ResourcePool) -> (built: Option<F::Handle>) {
        self.build(pool)
    }

    fn built(&mut self, pool: &ResourcePool, handle: &F::Handle) -> Action {
        self.on_build(pool, handle)
    }

    fn inserted(&mut self, pool: &ResourcePool, type_id: &TypeId) -> Action {
        self.on_insert(pool, type_id)
    }

    fn updated(&mut self, pool: &ResourcePool, type_id: &TypeId) -> Action {
        self.on_update(pool, type_id)
    }

    fn removed(&mut self, pool: &ResourcePool, type_id: &TypeId) -> Action {
        self.on_remove(pool, type_id)
    }
}

/// What a factory builds from a pool, for every pool.
pub type Builds<H> = spec_fn(Map<TypeId, Resource>) -> Option<H>;

/// One entry in the set's record of the calls it made on a factory or on
/// the handle it built.
pub enum Call {
    /// `on_insert` for the type with the identity `id`, and what it answered.
    OnInsert { id: TypeId, action: Action },
    /// `on_update` for the type with the identity `id`, and what it answered.
    OnUpdate { id: TypeId, action: Action },
    /// `on_remove` for the type with the identity `id`, and what it answered.
    OnRemove { id: TypeId, action: Action },
    /// `build`, and whether it handed out a handle.
    Build { built: bool },
    /// `on_build` for the handle just built, and what it answered.
    OnBuild { action: Action },
    /// `shutdown` on the handle that the set held, which it then let go of.
    Shutdown,
}

/// What happened in the pool that the factories are told about.
pub enum Change {
    /// A resource of the type with this identity was put into the pool.
    Inserted(TypeId),
    /// The resource of the type with this identity was replaced.
    Updated(TypeId),
    /// The resource of the type with this identity is leaving the pool.
    Removed(TypeId),
}

impl Change {
    /// The identity of the type that the change is about.
    pub open spec fn id(self) -> TypeId {
        match self {
            Change::Inserted(id) => id,
            Change::Updated(id) => id,
            Change::Removed(id) => id,
        }
    }

    /// The callback that tells a factory of this change, with its answer.
    pub open spec fn notice(self, action: Action) -> Call {
        match self {
            Change::Inserted(id) => Call::OnInsert { id, action },
            Change::Updated(id) => Call::OnUpdate { id, action },
            Change::Removed(id) => Call::OnRemove { id, action },
        }
    }
}

/// What a callback answered; `Noop` for the calls that answer nothing.
pub open spec fn answer(call: Call) -> Action {
    match call {
        Call::OnInsert { action, .. } => action,
        Call::OnUpdate { action, .. } => action,
        Call::OnRemove { action, .. } => action,
        Call::OnBuild { action } => action,
        Call::Build { .. } => Action::Noop,
        Call::Shutdown => Action::Noop,
    }
}

/// The calls by which an action is carried out on a slot that holds a handle
/// (`occupied`) or none, in the order in which they are made. A restart
/// ends with a `build`, which leaves the slot occupied or not
/// (`occupied_after`).
pub open spec fn calls_of_action(occupied: bool, action: Action, occupied_after: bool) -> Seq<Call> {
    let stop = if occupied {
        seq![Call::Shutdown]
    } else {
        Seq::<Call>::empty()
    };
    match action {
        Action::Noop => Seq::<Call>::empty(),
        Action::Shutdown => stop,
        Action::Restart => stop.push(Call::Build { built: occupied_after }),
    }
}

/// One thing that is done with a slot to carry out an action.
#[derive(Debug, Clone, Copy, PartialEq, Eq, Structural)]
pub enum Step {
    /// The handle is shut down and let go of.
    Shutdown,
    /// `build` is tried, and what it hands out takes the slot.
    Build,
}

/// The steps that carry out `action` on a slot that holds a handle
/// (`occupied`) or none, in the order in which they are taken.
pub open spec fn steps_of(occupied: bool, action: Action) -> Seq<Step> {
    match action {
        Action::Noop => Seq::<Step>::empty(),
        Action::Shutdown => if occupied {
            seq![Step::Shutdown]
        } else {
            Seq::<Step>::empty()
        },
        Action::Restart => if occupied {
            seq![Step::Shutdown, Step::Build]
        } else {
            seq![Step::Build]
        },
    }
}

/// The call that a step is, given whether `build` handed out a handle.
pub open spec fn call_of_step(step: Step, built: bool) -> Call {
    match step {
        Step::Shutdown => Call::Shutdown,
        Step::Build => Call::Build { built },
    }
}

/// The calls that a run of steps is, given whether `build` handed out a
/// handle.
pub open spec fn calls_of_steps(steps: Seq<Step>, built: bool) -> Seq<Call> {
    Seq::new(steps.len(), |k: int| call_of_step(steps[k], built))
}

/// The steps that carry out `action` on a slot that holds a handle or none,
/// in the order in which they are to be taken.
pub fn plan(occupied: bool, action: Action) -> (steps: Vec<Step>)
    ensures
        steps@ == steps_of(occupied, action),
        forall|built: bool|
            #[trigger] calls_of_steps(steps@, built) == calls_of_action(occupied, action, built),
{
    let mut steps: Vec<Step> = Vec::new();
    match action {
        Action::Noop => {},
        Action::Shutdown => {
            if occupied {
                steps.push(Step::Shutdown);
            }
        },
        Action::Restart => {
            if occupied {
                steps.push(Step::Shutdown);
            }
            steps.push(Step::Build);
        },
    }
    assert(steps@ =~= steps_of(occupied, action));
    assert forall|built: bool|
        #[trigger] calls_of_steps(steps@, built) == calls_of_action(occupied, action, built) by {
        assert(calls_of_steps(steps@, built) =~= calls_of_action(occupied, action, built));
    }
    steps
}

/// What can be seen of a factory's place in the set.
#[verifier::reject_recursive_types(T)]
pub struct Slot<T> {
    /// Whether the set builds a handle by itself as soon as the factory can.
    pub autobuild: bool,
    /// The handle that the factory has built and the set still holds.
    pub handle: Option<T>,
    /// What the factory, as it stands, builds from a pool.
    pub builds: Builds<T>,
    /// What the factory built from a pool as it stood when it had last been
    /// told of a change in the pool, before anything else was asked of it.
    pub noticed: Builds<T>,
    /// What the factory built from a pool as it stood when `on_build` had
    /// last answered.
    pub greeted: Builds<T>,
}

/// What has become of a slot once `action` has been carried out while the
/// pool held `pool`. Noop leaves the handle and the factory alone. Shutdown
/// leaves no handle, and the factory alone. Restart leaves what the factory,
/// as it stood, builds from the pool.
pub open spec fn settled<T>(
    before: Slot<T>,
    action: Action,
    pool: Map<TypeId, Resource>,
    after: Slot<T>,
) -> bool {
    &&& after.autobuild == before.autobuild
    &&& after.noticed == before.noticed
    &&& after.greeted == before.greeted
    &&& match action {
        Action::Noop => after.handle == before.handle && after.builds == before.builds,
        Action::Shutdown => after.handle is None && after.builds == before.builds,
        Action::Restart => after.handle == (before.builds)(pool),
    }
}

/// What has become of a slot once the first steps of an action, `done`,
/// have been taken while the pool held `pool`. A shutdown leaves no handle
/// and the factory alone; a build leaves what the factory, as it stood,
/// builds from the pool.
pub open spec fn taken<T>(
    before: Slot<T>,
    done: Seq<Step>,
    pool: Map<TypeId, Resource>,
    now: Slot<T>,
) -> bool {
    &&& now.autobuild == before.autobuild
    &&& now.noticed == before.noticed
    &&& now.greeted == before.greeted
    &&& if done.len() == 0 {
        now.handle == before.handle && now.builds == before.builds
    } else if done.last() == Step::Build {
        now.handle == (before.builds)(pool)
    } else {
        now.handle is None && now.builds == before.builds
    }
}

/// The calls made on one factory when it is told of a change that is no
/// insertion, given the slot before and after and what the pool held: the
/// notice, then what carries out the answer to it. Where the answer is
/// Restart, the slot then holds what the factory, as the notice left it,
/// builds from the pool; otherwise nothing was asked of the factory after
/// the notice.
pub open spec fn reacted<T>(
    block: Seq<Call>,
    change: Change,
    pool: Map<TypeId, Resource>,
    before: Slot<T>,
    after: Slot<T>,
) -> bool {
    &&& block.len() >= 1
    &&& block == seq![change.notice(answer(block[0]))] + calls_of_action(
        before.handle is Some,
        answer(block[0]),
        after.handle is Some,
    )
    &&& after.autobuild == before.autobuild
    &&& after.greeted == before.greeted
    &&& match answer(block[0]) {
        Action::Noop => after.handle == before.handle && after.builds == after.noticed,
        Action::Shutdown => after.handle is None && after.builds == after.noticed,
        Action::Restart => after.handle == (after.noticed)(pool),
    }
}

/// The calls made on one factory when it is told of an insertion, given the
/// slot before and after and what the pool held. The answer to the notice is
/// not acted upon. Where the slot builds by itself and is empty, `build`
/// follows, on the factory as the notice left it; where that hands out a
/// handle, `on_build` follows, the handle takes the slot, and the answer of
/// `on_build` is carried out on the factory as `on_build` left it.
pub open spec fn autobuilt<T>(
    block: Seq<Call>,
    id: TypeId,
    pool: Map<TypeId, Resource>,
    before: Slot<T>,
    after: Slot<T>,
) -> bool {
    &&& block.len() >= 1
    &&& block[0] == (Call::OnInsert { id, action: answer(block[0]) })
    &&& after.autobuild == before.autobuild
    &&& if before.autobuild && before.handle is None {
        &&& block.len() >= 2
        &&& block[1] == (Call::Build { built: (after.noticed)(pool) is Some })
        &&& if (after.noticed)(pool) is Some {
            &&& block.len() >= 3
            &&& block[2] == (Call::OnBuild { action: answer(block[2]) })
            &&& block == seq![block[0], block[1], block[2]] + calls_of_action(
                true,
                answer(block[2]),
                after.handle is Some,
            )
            &&& match answer(block[2]) {
                Action::Noop => after.handle == (after.noticed)(pool) && after.builds
                    == after.greeted,
                Action::Shutdown => after.handle is None && after.builds == after.greeted,
                Action::Restart => after.handle == (after.greeted)(pool),
            }
        } else {
            &&& block == seq![block[0], Call::Build { built: false }]
            &&& after.handle is None
            &&& after.greeted == before.greeted
        }
    } else {
        &&& block == seq![block[0]]
        &&& after.handle == before.handle
        &&& after.builds == after.noticed
        &&& after.greeted == before.greeted
    }
}

/// The calls made on one factory for a change, given its slot before and
/// after and what the pool held.
pub open spec fn follows<T>(
    block: Seq<Call>,
    change: Change,
    pool: Map<TypeId, Resource>,
    before: Slot<T>,
    after: Slot<T>,
) -> bool {
    match change {
        Change::Inserted(id) => autobuilt(block, id, pool, before, after),
        Change::Updated(_) => reacted(block, change, pool, before, after),
        Change::Removed(_) => reacted(block, change, pool, before, after),
    }
}

/// A factory with the handle that it has built, if any.
#[verifier::reject_recursive_types(T)]
pub struct FactoryHolder<T> {
    factory: Box<dyn AnyFactory<T>>,
    autobuild: bool,
    handle: Option<T>,
    noticed: Ghost<Builds<T>>,
    greeted: Ghost<Builds<T>>,
}

impl<T> View for FactoryHolder<T> {
    type V = Slot<T>;

    closed spec fn view(&self) -> Slot<T> {
        Slot {
            autobuild: self.autobuild,
            handle: self.handle,
            builds: |pool: Map<TypeId, Resource>| self.factory.builds(pool),
            noticed: self.noticed@,
            greeted: self.greeted@,
        }
    }
}

impl<T: Handle> FactoryHolder<T> {
    /// A holder for `factory` that holds no handle yet.
    pub fn new<F>(factory: F, autobuild: bool) -> (holder: Self) where
        F: Factory<Handle = T> + Send + Sync + 'static,

        ensures
            holder@.autobuild == autobuild,
            holder@.handle is None,
    {
        FactoryHolder {
            factory: Box::new(factory),
            autobuild,
            handle: None,
            noticed: Ghost(|pool: Map<TypeId, Resource>| None),
            greeted: Ghost(|pool: Map<TypeId, Resource>| None),
        }
    }

    /// The handle that the holder holds.
    pub fn handle(&self) -> (handle: Option<&T>)
        ensures
            crate::resource::shown(handle) == self@.handle,
    {
        self.handle.as_ref()
    }

    /// Carries out what a callback of the factory has asked for: the steps
    /// that `plan` gives for it, one after the other. Hands back the calls
    /// that were made.
    pub fn handle_action(&mut self, action: Action, pool: &ResourcePool) -> (calls: Ghost<Seq<Call>>)
        requires
            pool.wf(),
        ensures
            settled(old(self)@, action, pool@, final(self)@),
            calls@ == calls_of_action(
                old(self)@.handle is Some,
                action,
                final(self)@.handle is Some,
            ),
    {
        let steps = plan(self.handle.is_some(), action);
        let mut i: usize = 0;
        assert(self@.builds =~= old(self)@.builds);
        while i < steps.len()
            invariant
                pool.wf(),
                i <= steps@.len(),
                steps@ == steps_of(old(self)@.handle is Some, action),
                taken(old(self)@, steps@.take(i as int), pool@, self@),
            decreases steps@.len() - i,
        {
            let ghost before = self@;
            assert(steps@.take(i + 1).last() == steps@[i as int]);
            match steps[i] {
                Step::Shutdown => {
                    if let Some(mut handle) = self.handle.take() {
                        handle.shutdown(pool);
                    }
                    assert(self@.builds =~= before.builds);
                },
                Step::Build => {
                    // a build is the last step, and no build comes before it
                    assert(steps@.take(i as int).len() > 0 ==> steps@.take(i as int).last()
                        == steps@[i - 1]);
                    self.handle = self.factory.build_handle(pool);
                },
            }
            i += 1;
        }
        assert(steps@.take(i as int) =~= steps@);
        Ghost(calls_of_steps(steps@, self.handle is Some))
    }

    /// Tells the factory that a resource was replaced and carries out its
    /// answer. Hands back the calls that were made.
    fn notify_update(&mut self, pool: &ResourcePool, id: &TypeId) -> (block: Ghost<Seq<Call>>)
        requires
            pool.wf(),
        ensures
            reacted(block@, Change::Updated(*id), pool@, old(self)@, final(self)@),
    {
        let action = self.factory.updated(pool, id);
        self.noticed = Ghost(self@.builds);
        let calls = self.handle_action(action, pool);
        Ghost(seq![Call::OnUpdate { id: *id, action }] + calls@)
    }

    /// Tells the factory that a resource is leaving and carries out its
    /// answer. Hands back the calls that were made.
    fn notify_remove(&mut self, pool: &ResourcePool, id: &TypeId) -> (block: Ghost<Seq<Call>>)
        requires
            pool.wf(),
        ensures
            reacted(block@, Change::Removed(*id), pool@, old(self)@, final(self)@),
    {
        let action = self.factory.removed(pool, id);
        self.noticed = Ghost(self@.builds);
        let calls = self.handle_action(action, pool);
        Ghost(seq![Call::OnRemove { id: *id, action }] + calls@)
    }

    /// Tells the factory that a resource was put into the pool; its answer is
    /// not acted upon. Then, where the slot builds by itself and is empty,
    /// lets the factory try to build. Hands back the calls that were made.
    fn notify_insert(&mut self, pool: &ResourcePool, id: &TypeId) -> (block: Ghost<Seq<Call>>)
        requires
            pool.wf(),
        ensures
            autobuilt(block@, *id, pool@, old(self)@, final(self)@),
    {
        let unused = self.factory.inserted(pool, id);
        self.noticed = Ghost(self@.builds);
        let ghost mut block = seq![Call::OnInsert { id: *id, action: unused }];
        if self.autobuild && self.handle.is_none() {
            match self.factory.build_handle(pool) {
                Some(handle) => {
                    let action = self.factory.built(pool, &handle);
                    self.greeted = Ghost(self@.builds);
                    self.handle = Some(handle);
                    let calls = self.handle_action(action, pool);
                    proof {
                        block = seq![block[0], Call::Build { built: true }, Call::OnBuild { action }]
                            + calls@;
                    }
                },
                None => {
                    proof {
                        block = seq![block[0], Call::Build { built: false }];
                    }
                },
            }
        }
        Ghost(block)
    }

    /// Tells the factory of a change in the pool and does what follows from
    /// its answer. Hands back the calls that were made.
    fn notify(&mut self, pool: &ResourcePool, change: &Change) -> (block: Ghost<Seq<Call>>)
        requires
            pool.wf(),
        ensures
            follows(block@, *change, pool@, old(self)@, final(self)@),
    {
        match change {
            Change::Inserted(id) => self.notify_insert(pool, id),
            Change::Updated(id) => self.notify_update(pool, id),
            Change::Removed(id) => self.notify_remove(pool, id),
        }
    }
}

/// The set's record of what the factories were told of one change in the
/// pool.
pub struct Round {
    /// What happened in the pool.
    pub change: Change,
    /// What the pool held while the factories were told.
    pub pool: Map<TypeId, Resource>,
    /// For each factory, in the order in which they were told, the calls
    /// that the set made on it as it wrote them down, in their order.
    pub blocks: Seq<Seq<Call>>,
}

/// The calls on the factory in place `i` that one round records; none where
/// the factory joined the set later.
pub open spec fn block_of(round: Round, i: int) -> Seq<Call> {
    if 0 <= i < round.blocks.len() {
        round.blocks[i]
    } else {
        Seq::<Call>::empty()
    }
}

/// In this round the first call on the factory in place `i` told it of the
/// round's change.
pub open spec fn noticed(round: Round, i: int) -> bool {
    &&& round.blocks[i].len() >= 1
    &&& round.blocks[i][0] == round.change.notice(answer(round.blocks[i][0]))
}

/// All calls on the factory in place `i` that the rounds record, oldest
/// first.
pub open spec fn history(rounds: Seq<Round>, i: int) -> Seq<Call>
    decreases rounds.len(),
{
    if rounds.len() == 0 {
        Seq::<Call>::empty()
    } else {
        history(rounds.drop_last(), i) + block_of(rounds.last(), i)
    }
}

/// By how much a call changes the number of handles that a slot holds.
pub open spec fn gain(call: Call) -> int {
    match call {
        Call::Build { built } => if built {
            1
        } else {
            0
        },
        Call::Shutdown => -1,
        _ => 0,
    }
}

/// The number of handles built and not yet shut down after a run of calls.
pub open spec fn live(calls: Seq<Call>) -> int
    decreases calls.len(),
{
    if calls.len() == 0 {
        0
    } else {
        live(calls.drop_last()) + gain(calls.last())
    }
}

/// Whether a call is in order when the slot holds `held` handles: `build`
/// is tried on an empty slot only, and `on_build` and `shutdown` are called
/// with exactly one handle at hand.
pub open spec fn in_order(call: Call, held: int) -> bool {
    match call {
        Call::Build { .. } => held == 0,
        Call::OnBuild { .. } => held == 1,
        Call::Shutdown => held == 1,
        _ => true,
    }
}

/// Every call of a run is in order, given the calls before it and `held`
/// handles at the start.
pub open spec fn orderly_from(calls: Seq<Call>, held: int) -> bool {
    forall|k: int| 0 <= k < calls.len() ==> in_order(#[trigger] calls[k], held + live(calls.take(k)))
}

/// Every call of a factory's history is in order.
pub open spec fn orderly(calls: Seq<Call>) -> bool {
    orderly_from(calls, 0)
}

/// 1 for a slot that holds a handle, 0 for an empty one.
pub open spec fn held<T>(slot: Slot<T>) -> int {
    if slot.handle is Some {
        1
    } else {
        0
    }
}

/// The handles that a run of slots holds, in the order of the slots.
pub open spec fn handles_of<T>(slots: Seq<Slot<T>>) -> Seq<T>
    decreases slots.len(),
{
    if slots.len() == 0 {
        Seq::<T>::empty()
    } else {
        match slots.last().handle {
            Some(handle) => handles_of(slots.drop_last()).push(handle),
            None => handles_of(slots.drop_last()),
        }
    }
}

/// What can be seen of a set of factories: their slots in the order in which
/// they joined, and everything they were ever told.
#[verifier::reject_recursive_types(T)]
pub struct Supervision<T> {
    /// One slot for each factory.
    pub slots: Seq<Slot<T>>,
    /// One round for each change that the factories were told of, oldest
    /// first.
    pub rounds: Seq<Round>,
}

impl<T> Supervision<T> {
    /// The invariant of a set: no round speaks of a factory that is not
    /// there, in every round every factory was first of all told of the
    /// change, every factory's history is in order, and a slot holds a
    /// handle exactly if its history leaves one.
    pub open spec fn wf(self) -> bool {
        &&& forall|k: int|
            0 <= k < self.rounds.len() ==> (#[trigger] self.rounds[k]).blocks.len()
                <= self.slots.len()
        &&& forall|k: int, i: int|
            0 <= k < self.rounds.len() && 0 <= i < self.rounds[k].blocks.len() ==> #[trigger] noticed(
                self.rounds[k],
                i,
            )
        &&& forall|i: int|
            0 <= i < self.slots.len() ==> orderly(#[trigger] history(self.rounds, i)) && live(
                history(self.rounds, i),
            ) == held(self.slots[i])
    }
}

/// `after` is `before` with one more round in the record, for `change` and
/// a pool that held `pool`, and with every slot as that round's calls leave
/// it.
pub open spec fn told<T>(
    before: Supervision<T>,
    after: Supervision<T>,
    change: Change,
    pool: Map<TypeId, Resource>,
) -> bool {
    &&& after.slots.len() == before.slots.len()
    &&& after.rounds == before.rounds.push(after.rounds.last())
    &&& after.rounds.last().change == change
    &&& after.rounds.last().pool == pool
    &&& after.rounds.last().blocks.len() == before.slots.len()
    &&& forall|i: int|
        0 <= i < before.slots.len() ==> follows(
            #[trigger] after.rounds.last().blocks[i],
            change,
            pool,
            before.slots[i],
            after.slots[i],
        )
}

/// One more call changes the number of live handles by its gain.
pub proof fn lemma_live_push(calls: Seq<Call>, call: Call)
    ensures
        live(calls.push(call)) == live(calls) + gain(call),
{
    assert(calls.push(call).drop_last() =~= calls);
}

/// The live handles of two runs of calls, one after the other, add up.
pub proof fn lemma_live_concat(first: Seq<Call>, second: Seq<Call>)
    ensures
        live(first + second) == live(first) + live(second),
    decreases second.len(),
{
    if second.len() == 0 {
        assert(first + second =~= first);
    } else {
        lemma_live_concat(first, second.drop_last());
        assert((first + second).drop_last() =~= first + second.drop_last());
    }
}

/// A run of calls that is in order, followed by one that is in order from
/// where the first leaves off, is in order.
pub proof fn lemma_orderly_concat(first: Seq<Call>, second: Seq<Call>, start: int)
    requires
        orderly_from(first, start),
        orderly_from(second, start + live(first)),
    ensures
        orderly_from(first + second, start),
{
    let both = first + second;
    assert forall|k: int| 0 <= k < both.len() implies in_order(
        #[trigger] both[k],
        start + live(both.take(k)),
    ) by {
        if k < first.len() {
            assert(both.take(k) =~= first.take(k));
            assert(both[k] == first[k]);
        } else {
            let m = k - first.len();
            assert(both.take(k) =~= first + second.take(m));
            lemma_live_concat(first, second.take(m));
            assert(both[k] == second[m]);
        }
    }
}

/// The calls that carry out an action are in order on a slot that holds a
/// handle or none, as they say, and leave as many handles as the slot then
/// holds.
pub proof fn lemma_action_in_order(occupied: bool, action: Action, occupied_after: bool)
    ensures
        orderly_from(
            calls_of_action(occupied, action, occupied_after),
            if occupied {
                1
            } else {
                0
            },
        ),
        live(calls_of_action(occupied, action, occupied_after)) == match action {
            Action::Noop => 0int,
            Action::Shutdown => if occupied {
                -1int
            } else {
                0int
            },
            Action::Restart => (if occupied_after {
                1int
            } else {
                0int
            }) - (if occupied {
                1int
            } else {
                0int
            }),
        },
{
    let calls = calls_of_action(occupied, action, occupied_after);
    let start: int = if occupied {
        1
    } else {
        0
    };
    let none = Seq::<Call>::empty();
    lemma_live_push(none, Call::Shutdown);
    lemma_live_push(none, Call::Build { built: occupied_after });
    lemma_live_push(seq![Call::Shutdown], Call::Build { built: occupied_after });
    assert forall|k: int| 0 <= k < calls.len() implies in_order(
        #[trigger] calls[k],
        start + live(calls.take(k)),
    ) by {
        if k == 0 {
            assert(calls.take(0) =~= none);
        } else {
            assert(calls.take(1) =~= seq![Call::Shutdown]);
        }
    }
}

/// What is done with one factory for one change keeps its history in order
/// and leaves as many live handles as its slot then holds.
pub proof fn lemma_block_in_order<T>(
    past: Seq<Call>,
    block: Seq<Call>,
    change: Change,
    pool: Map<TypeId, Resource>,
    before: Slot<T>,
    after: Slot<T>,
)
    requires
        orderly(past),
        live(past) == held(before),
        follows(block, change, pool, before, after),
    ensures
        orderly(past + block),
        live(past + block) == held(after),
{
    let none = Seq::<Call>::empty();
    let head = if change is Inserted && before.autobuild && before.handle is None && block[1] == (
    Call::Build { built: true }) {
        seq![block[0], block[1], block[2]]
    } else if change is Inserted && before.autobuild && before.handle is None {
        seq![block[0], block[1]]
    } else {
        seq![block[0]]
    };
    let tail = if change is Inserted {
        if before.autobuild && before.handle is None && block[1] == (Call::Build { built: true }) {
            calls_of_action(true, answer(block[2]), after.handle is Some)
        } else {
            none
        }
    } else {
        calls_of_action(before.handle is Some, answer(block[0]), after.handle is Some)
    };
    assert(block =~= head + tail);
    // the head, call by call
    let start = held(before);
    lemma_live_push(none, head[0]);
    assert(none.push(head[0]) =~= seq![head[0]]);
    if head.len() >= 2 {
        lemma_live_push(seq![head[0]], head[1]);
        assert(seq![head[0]].push(head[1]) =~= seq![head[0], head[1]]);
    }
    if head.len() >= 3 {
        lemma_live_push(seq![head[0], head[1]], head[2]);
        assert(seq![head[0], head[1]].push(head[2]) =~= head);
    }
    assert forall|k: int| 0 <= k < head.len() implies in_order(
        #[trigger] head[k],
        start + live(head.take(k)),
    ) by {
        if k == 0 {
            assert(head.take(0) =~= none);
        } else if k == 1 {
            assert(head.take(1) =~= seq![head[0]]);
        } else {
            assert(head.take(2) =~= seq![head[0], head[1]]);
        }
    }
    assert(head.take(head.len() as int) =~= head);
    // the tail carries out an action
    if change is Inserted {
        if head.len() == 3 {
            lemma_action_in_order(true, answer(block[2]), after.handle is Some);
        }
    } else {
        lemma_action_in_order(before.handle is Some, answer(block[0]), after.handle is Some);
    }
    lemma_orderly_concat(head, tail, start);
    lemma_live_concat(head, tail);
    assert(orderly_from(block, 0 + live(past)));
    lemma_orderly_concat(past, block, 0);
    lemma_live_concat(past, block);
}

/// A slot never holds more than one handle: after any number of the calls
/// of a history that is in order, one handle or none is built and not yet
/// shut down.
pub proof fn lemma_one_handle_at_a_time(calls: Seq<Call>, k: int)
    requires
        orderly(calls),
        0 <= k <= calls.len(),
    ensures
        0 <= live(calls.take(k)) <= 1,
    decreases k,
{
    if k > 0 {
        lemma_one_handle_at_a_time(calls, k - 1);
        assert(calls.take(k).drop_last() =~= calls.take(k - 1));
        assert(calls.take(k).last() == calls[k - 1]);
        assert(in_order(calls[k - 1], 0 + live(calls.take(k - 1))));
    }
}

/// A restart on a slot that holds a handle is two calls: the handle is shut
/// down first, and only then is `build` tried again.
pub proof fn lemma_restart_shuts_down_first(occupied_after: bool)
    ensures
        calls_of_action(true, Action::Restart, occupied_after) == seq![
            Call::Shutdown,
            Call::Build { built: occupied_after },
        ],
{
    assert(calls_of_action(true, Action::Restart, occupied_after) =~= seq![
        Call::Shutdown,
        Call::Build { built: occupied_after },
    ]);
}

/// In a set that keeps its invariant, whenever `build` was tried on a
/// factory its slot was empty, and whenever a handle was shut down it was
/// the one handle that the slot held.
pub proof fn lemma_builds_on_empty_slot<T>(set: Supervision<T>, i: int, k: int)
    requires
        set.wf(),
        0 <= i < set.slots.len(),
        0 <= k < history(set.rounds, i).len(),
    ensures
        history(set.rounds, i)[k] is Build ==> live(history(set.rounds, i).take(k)) == 0,
        history(set.rounds, i)[k] is Shutdown ==> live(history(set.rounds, i).take(k)) == 1,
{
    let calls = history(set.rounds, i);
    assert(orderly(calls));
    assert(in_order(calls[k], 0 + live(calls.take(k))));
}

/// A factory that no round speaks of has no history.
pub proof fn lemma_newcomer_has_no_history(rounds: Seq<Round>, i: int)
    requires
        forall|k: int| 0 <= k < rounds.len() ==> (#[trigger] rounds[k]).blocks.len() <= i,
    ensures
        history(rounds, i) == Seq::<Call>::empty(),
    decreases rounds.len(),
{
    if rounds.len() > 0 {
        assert forall|k: int| 0 <= k < rounds.drop_last().len() implies (
        #[trigger] rounds.drop_last()[k]).blocks.len() <= i by {
            assert(rounds.drop_last()[k] == rounds[k]);
        }
        lemma_newcomer_has_no_history(rounds.drop_last(), i);
        assert(rounds.last() == rounds[rounds.len() - 1]);
        assert(history(rounds.drop_last(), i) + block_of(rounds.last(), i) =~= Seq::<Call>::empty());
    }
}

/// Telling every factory of a change keeps the set's invariant.
pub proof fn lemma_told_keeps_wf<T>(
    before: Supervision<T>,
    after: Supervision<T>,
    change: Change,
    pool: Map<TypeId, Resource>,
)
    requires
        before.wf(),
        told(before, after, change, pool),
    ensures
        after.wf(),
{
    let round = after.rounds.last();
    assert(after.rounds.drop_last() =~= before.rounds);
    assert forall|k: int| 0 <= k < after.rounds.len() implies (#[trigger] after.rounds[k]).blocks.len()
        <= after.slots.len() by {
        if k < before.rounds.len() {
            assert(after.rounds[k] == before.rounds[k]);
        }
    }
    assert forall|k: int, i: int|
        0 <= k < after.rounds.len() && 0 <= i < after.rounds[k].blocks.len() implies #[trigger] noticed(
        after.rounds[k],
        i,
    ) by {
        if k < before.rounds.len() {
            assert(after.rounds[k] == before.rounds[k]);
            assert(noticed(before.rounds[k], i));
        } else {
            assert(follows(round.blocks[i], change, pool, before.slots[i], after.slots[i]));
        }
    }
    assert forall|i: int| 0 <= i < after.slots.len() implies orderly(
        #[trigger] history(after.rounds, i),
    ) && live(history(after.rounds, i)) == held(after.slots[i]) by {
        assert(follows(round.blocks[i], change, pool, before.slots[i], after.slots[i]));
        assert(orderly(history(before.rounds, i)));
        lemma_block_in_order(
            history(before.rounds, i),
            round.blocks[i],
            change,
            pool,
            before.slots[i],
            after.slots[i],
        );
    }
}

/// The factories of a supervisor, in the order in which they joined.
#[verifier::reject_recursive_types(T)]
pub struct FactorySet<T> {
    factories: Vec<FactoryHolder<T>>,
    rounds: Ghost<Seq<Round>>,
}

impl<T> View for FactorySet<T> {
    type V = Supervision<T>;

    closed spec fn view(&self) -> Supervision<T> {
        Supervision {
            slots: Seq::new(self.factories@.len(), |i: int| self.factories@[i]@),
            rounds: self.rounds@,
        }
    }
}

impl<T: Handle> FactorySet<T> {
    /// A set without factories that has been told nothing yet.
    pub fn new() -> (set: Self)
        ensures
            set@.wf(),
            set@.slots.len() == 0,
            set@.rounds.len() == 0,
    {
        FactorySet { factories: Vec::new(), rounds: Ghost(Seq::empty()) }
    }
    /// Adds a factory at the end of the set. Its slot is empty.
    pub fn insert<F>(&mut self, factory: F, autobuild: bool) where
        F: Factory<Handle = T> + Send + Sync + 'static,

        requires
            old(self)@.wf(),
        ensures
            final(self)@.wf(),
            final(self)@.slots == old(self)@.slots.push(final(self)@.slots.last()),
            final(self)@.slots.last().autobuild == autobuild,
            final(self)@.slots.last().handle is None,
            final(self)@.rounds == old(self)@.rounds,
    {
        let holder = FactoryHolder::new(factory, autobuild);
        self.factories.push(holder);
        proof {
            let before = old(self)@;
            let after = self@;
            let n = before.slots.len() as int;
            assert(after.slots =~= before.slots.push(after.slots.last()));
            lemma_newcomer_has_no_history(after.rounds, n);
            assert forall|i: int| 0 <= i < after.slots.len() implies orderly(
                #[trigger] history(after.rounds, i),
            ) && live(history(after.rounds, i)) == held(after.slots[i]) by {
                if i < n {
                    assert(after.slots[i] == before.slots[i]);
                    assert(orderly(history(before.rounds, i)));
                }
            }
        }
    }

    /// Tells every factory, in the order in which they joined, of a change
    /// in the pool, and does with each what follows from its answer before
    /// the next one is told.
    fn tell(&mut self, pool: &ResourcePool, change: Change)
        requires
            old(self)@.wf(),
            pool.wf(),
        ensures
            final(self)@.wf(),
            told(old(self)@, final(self)@, change, pool@),
    {
        let ghost before = self@;
        let ghost mut blocks: Seq<Seq<Call>> = Seq::empty();
        let n = self.factories.len();
        let mut i: usize = 0;
        while i < n
            invariant
                pool.wf(),
                n == self.factories@.len(),
                n == before.slots.len(),
                i <= n,
                self.rounds@ == before.rounds,
                blocks.len() == i,
                forall|j: int|
                    0 <= j < i ==> follows(
                        #[trigger] blocks[j],
                        change,
                        pool@,
                        before.slots[j],
                        self.factories@[j]@,
                    ),
                forall|j: int| i <= j < n ==> (#[trigger] self.factories@[j])@ == before.slots[j],
            decreases n - i,
        {
            let block = self.factories[i].notify(pool, &change);
            proof {
                blocks = blocks.push(block@);
            }
            i += 1;
        }
        proof {
            let round = Round { change, pool: pool@, blocks };
            self.rounds@ = self.rounds@.push(round);
            lemma_told_keeps_wf(before, self@, change, pool@);
        }
    }

    /// Tells every factory that a resource of the type with the identity
    /// `id` was put into the pool. A factory that builds by itself and holds
    /// no handle is then asked to build one.
    pub fn on_add(&mut self, pool: &ResourcePool, id: &TypeId)
        requires
            old(self)@.wf(),
            pool.wf(),
        ensures
            final(self)@.wf(),
            told(old(self)@, final(self)@, Change::Inserted(*id), pool@),
    {
        self.tell(pool, Change::Inserted(*id))
    }

    /// Tells every factory that the resource of the type with the identity
    /// `id` was replaced, and carries out each answer.
    pub fn on_update(&mut self, pool: &ResourcePool, id: &TypeId)
        requires
            old(self)@.wf(),
            pool.wf(),
        ensures
            final(self)@.wf(),
            told(old(self)@, final(self)@, Change::Updated(*id), pool@),
    {
        self.tell(pool, Change::Updated(*id))
    }

    /// Tells every factory that the resource of the type with the identity
    /// `id` is leaving the pool, and carries out each answer.
    pub fn on_remove(&mut self, pool: &ResourcePool, id: &TypeId)
        requires
            old(self)@.wf(),
            pool.wf(),
        ensures
            final(self)@.wf(),
            told(old(self)@, final(self)@, Change::Removed(*id), pool@),
    {
        self.tell(pool, Change::Removed(*id))
    }

    /// The handles that the set holds, those of the factories that joined
    /// first coming first.
    pub fn handles(&self) -> (held: Vec<&T>)
        ensures
            held@.len() == handles_of(self@.slots).len(),
            forall|k: int| 0 <= k < held@.len() ==> *(#[trigger] held@[k]) == handles_of(self@.slots)[k],
    {
        let mut held: Vec<&T> = Vec::new();
        let n = self.factories.len();
        let mut i: usize = 0;
        while i < n
            invariant
                n == self.factories@.len(),
                i <= n,
                held@.len() == handles_of(self@.slots.take(i as int)).len(),
                forall|k: int|
                    0 <= k < held@.len() ==> *(#[trigger] held@[k]) == handles_of(
                        self@.slots.take(i as int),
                    )[k],
            decreases n - i,
        {
            proof {
                assert(self@.slots.take(i + 1).drop_last() =~= self@.slots.take(i as int));
                assert(self@.slots.take(i + 1).last() == self.factories@[i as int]@);
            }
            match &self.factories[i].handle {
                Some(handle) => {
                    held.push(handle);
                },
                None => {},
            }
            i += 1;
        }
        proof {
            assert(self@.slots.take(n as int) =~= self@.slots);
        }
        held
    }
}

impl<T: Handle> Default for FactorySet<T> {
    /// A set without factories that has been told nothing yet.
    fn default() -> (set: Self)
        ensures
            set@.wf(),
            set@.slots.len() == 0,
            set@.rounds.len() == 0,
    {
        FactorySet::new()
    }
}

} // verus!
