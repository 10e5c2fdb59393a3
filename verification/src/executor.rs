//! The event loop of an actor, as a machine that is fed what was observed.
//!
//! An executor owns an actor, the receiving side of its mailbox and the
//! receiving side of a channel of state changes. Whoever drives it waits for
//! a state change or a message, the state change favoured, hands what came
//! to [`Executor::observe`], lets the actor handle the message that comes
//! back, and goes on for as long as [`Executor::verdict`] has nothing to say.

use crate::address::Address;
use crate::address::AddressCounter;
use crate::address::WeakAddress;
use crate::address::nth_identity;
use crate::channel::bounded;
use crate::channel::clone_sender;
use crate::channel::force_send;
use crate::channel::try_recv;
use crate::channel::unbounded;
use crate::channel::waiting;
use crate::error::ActorError;
use crate::error::AddressError;
use async_channel::Receiver;
use async_channel::SendError;
use async_channel::Sender;
use vstd::prelude::*;

verus! {

/// The capacity of a mailbox where none is asked for.
pub const DEFAULT_CAP: usize = 100;

/// Where the event loop of an executor stands.
#[derive(Debug, Clone, Copy, PartialEq, Eq, PartialOrd, Ord, Structural)]
pub enum State {
    /// The loop goes on.
    Continue,
    /// The actor was asked to stop.
    Shutdown,
    /// Every address of the actor is gone.
    SendersClosed,
}

impl Default for State {
    fn default() -> (state: Self)
        ensures
            state == State::Continue,
    {
        State::Continue
    }
}

/// What one wait of the event loop brought.
pub enum Event<M> {
    /// A state change came over the state channel.
    State(State),
    /// A message came out of the mailbox.
    Envelope(M),
    /// The channel that was waited on is closed and empty.
    Closed,
}

/// How the result of a run ends the race against another future.
pub enum Finish {
    /// The run ended first, with this result.
    Ran(Result<(), AddressError>),
    /// The other future ended first; the actor is still there.
    Outrun,
}

/// What an event makes of the state of the loop, and the message that is to
/// be handled next. A state change takes effect, a message is handed on, a
/// closed channel ends the loop. Once the loop has left `Continue` nothing
/// moves it and no message is handed on.
pub open spec fn step<M>(state: State, event: Event<M>) -> (State, Option<M>) {
    if state != State::Continue {
        (state, None)
    } else {
        match event {
            Event::State(next) => (next, None),
            Event::Envelope(message) => (State::Continue, Some(message)),
            Event::Closed => (State::SendersClosed, None),
        }
    }
}

/// What a run says once the loop stands at `state`: nothing while it goes
/// on, success after a shutdown, an error when all addresses are gone.
pub open spec fn verdict_of(state: State) -> Option<Result<(), AddressError>> {
    match state {
        State::Continue => None,
        State::Shutdown => Some(Ok(())),
        State::SendersClosed => Some(Err(AddressError::Closed)),
    }
}

/// Where the loop stands after a run of events, starting at `state`.
pub open spec fn state_after<M>(state: State, events: Seq<Event<M>>) -> State
    decreases events.len(),
{
    if events.len() == 0 {
        state
    } else {
        step(state_after(state, events.drop_last()), events.last()).0
    }
}

/// The messages handed on for handling during a run of events, starting at
/// `state`, in the order in which they are handed on.
pub open spec fn handled<M>(state: State, events: Seq<Event<M>>) -> Seq<M>
    decreases events.len(),
{
    if events.len() == 0 {
        Seq::<M>::empty()
    } else {
        let before = handled(state, events.drop_last());
        match step(state_after(state, events.drop_last()), events.last()).1 {
            Some(message) => before.push(message),
            None => before,
        }
    }
}

/// The messages among a run of events, in their order.
pub open spec fn envelopes<M>(events: Seq<Event<M>>) -> Seq<M>
    decreases events.len(),
{
    if events.len() == 0 {
        Seq::<M>::empty()
    } else {
        match events.last() {
            Event::Envelope(message) => envelopes(events.drop_last()).push(message),
            _ => envelopes(events.drop_last()),
        }
    }
}

/// Whether an event leaves a loop that goes on going on.
pub open spec fn harmless<M>(event: Event<M>) -> bool {
    match event {
        Event::State(next) => next == State::Continue,
        Event::Envelope(_) => true,
        Event::Closed => false,
    }
}

/// Once the loop has left `Continue` it stays where it is and hands on
/// nothing more, whatever comes.
pub proof fn lemma_terminal<M>(state: State, events: Seq<Event<M>>)
    requires
        state != State::Continue,
    ensures
        state_after(state, events) == state,
        handled(state, events) == Seq::<M>::empty(),
    decreases events.len(),
{
    if events.len() > 0 {
        lemma_terminal(state, events.drop_last());
    }
}

/// A run of events can be cut in two: the second part starts where the
/// first leaves off, and the messages handed on are those of the first part
/// followed by those of the second.
pub proof fn lemma_run_split<M>(state: State, first: Seq<Event<M>>, second: Seq<Event<M>>)
    ensures
        state_after(state, first + second) == state_after(state_after(state, first), second),
        handled(state, first + second) == handled(state, first) + handled(
            state_after(state, first),
            second,
        ),
    decreases second.len(),
{
    if second.len() == 0 {
        assert(first + second =~= first);
        assert(handled(state, first) + Seq::<M>::empty() =~= handled(state, first));
    } else {
        lemma_run_split(state, first, second.drop_last());
        assert((first + second).drop_last() =~= first + second.drop_last());
        assert((first + second).last() == second.last());
        let middle = state_after(state, first);
        let ahead = handled(middle, second.drop_last());
        match step(state_after(middle, second.drop_last()), second.last()).1 {
            Some(message) => {
                assert((handled(state, first) + ahead).push(message) =~= handled(state, first)
                    + ahead.push(message));
            },
            None => {},
        }
    }
}

/// While nothing but messages and changes to `Continue` comes, the loop goes
/// on and hands on every message, in the order in which they came.
pub proof fn lemma_in_order<M>(events: Seq<Event<M>>)
    requires
        forall|k: int| 0 <= k < events.len() ==> harmless(#[trigger] events[k]),
    ensures
        state_after(State::Continue, events) == State::Continue,
        handled(State::Continue, events) == envelopes(events),
    decreases events.len(),
{
    if events.len() > 0 {
        assert forall|k: int| 0 <= k < events.drop_last().len() implies harmless(
            #[trigger] events.drop_last()[k],
        ) by {
            assert(events.drop_last()[k] == events[k]);
        }
        lemma_in_order(events.drop_last());
        assert(harmless(events[events.len() - 1]));
    }
}

/// A request to shut down ends the run with success: the messages that came
/// before it are handled in their order, and none that comes after it is.
pub proof fn lemma_shutdown_wins<M>(before: Seq<Event<M>>, after: Seq<Event<M>>)
    requires
        forall|k: int| 0 <= k < before.len() ==> harmless(#[trigger] before[k]),
    ensures
        ({
            let events = before.push(Event::State(State::Shutdown)) + after;
            &&& state_after(State::Continue, events) == State::Shutdown
            &&& verdict_of(state_after(State::Continue, events)) == Some(Ok::<(), AddressError>(()))
            &&& handled(State::Continue, events) == envelopes(before)
        }),
{
    let stop = before.push(Event::<M>::State(State::Shutdown));
    lemma_in_order(before);
    assert(stop.drop_last() =~= before);
    assert(state_after(State::Continue, stop) == State::Shutdown);
    assert(handled(State::Continue, stop) == envelopes(before));
    lemma_run_split(State::Continue, stop, after);
    lemma_terminal(State::Shutdown, after);
    assert(envelopes(before) + Seq::<M>::empty() =~= envelopes(before));
}

/// When the mailbox is found closed, the run ends with the error that says
/// so: the messages that came before are handled in their order, and
/// nothing that comes after counts.
pub proof fn lemma_closed_exits<M>(before: Seq<Event<M>>, after: Seq<Event<M>>)
    requires
        forall|k: int| 0 <= k < before.len() ==> harmless(#[trigger] before[k]),
    ensures
        ({
            let events = before.push(Event::Closed) + after;
            &&& state_after(State::Continue, events) == State::SendersClosed
            &&& verdict_of(state_after(State::Continue, events)) == Some(
                Err::<(), AddressError>(AddressError::Closed),
            )
            &&& handled(State::Continue, events) == envelopes(before)
        }),
{
    let stop = before.push(Event::<M>::Closed);
    lemma_in_order(before);
    assert(stop.drop_last() =~= before);
    assert(state_after(State::Continue, stop) == State::SendersClosed);
    assert(handled(State::Continue, stop) == envelopes(before));
    lemma_run_split(State::Continue, stop, after);
    lemma_terminal(State::SendersClosed, after);
    assert(envelopes(before) + Seq::<M>::empty() =~= envelopes(before));
}

/// What a request to shut down comes to, given what sending it into the
/// state channel came to: an error exactly if the channel was closed, which
/// it is once the executor is gone.
pub fn shutdown_result(sent: Result<Option<State>, SendError<State>>) -> (result: Result<
    (),
    ActorError,
>)
    ensures
        result == if sent is Ok {
            Ok::<(), ActorError>(())
        } else {
            Err::<(), ActorError>(ActorError::Shutdown)
        },
{
    match sent {
        Ok(_) => Ok(()),
        Err(_) => Err(ActorError::Shutdown),
    }
}

/// What a run against another future comes to: `Ok(true)` if the other
/// future ended first, `Ok(false)` if the actor was shut down, the error if
/// all its addresses are gone.
pub fn run_against_result(finish: Finish) -> (result: Result<bool, AddressError>)
    ensures
        result == match finish {
            Finish::Outrun => Ok::<bool, AddressError>(true),
            Finish::Ran(Ok(_)) => Ok::<bool, AddressError>(false),
            Finish::Ran(Err(error)) => Err::<bool, AddressError>(error),
        },
{
    match finish {
        Finish::Outrun => Ok(true),
        Finish::Ran(Ok(_)) => Ok(false),
        Finish::Ran(Err(error)) => Err(error),
    }
}

/// What an actor is given with every message: a way to ask its own executor
/// to stop, and its own weak address.
#[derive(Debug)]
#[verifier::reject_recursive_types(M)]
pub struct Context<M> {
    sender: Sender<State>,
    address: WeakAddress<M>,
}

impl<M> Context<M> {
    /// The identity of the actor's address.
    pub closed spec fn id(&self) -> u64 {
        self.address.id()
    }

    /// The sending side of the executor's state channel.
    pub closed spec fn channel(&self) -> Sender<State> {
        self.sender
    }

    /// Asks the executor to stop. It does so when it next looks at the state
    /// channel, before it takes another message. Where the executor is gone
    /// already, nothing happens.
    pub fn shutdown(&self) {
        let _ = force_send(&self.sender, State::Shutdown);
    }

    /// The weak address of the actor, for an actor that sends to itself.
    pub fn address(&self) -> (address: &WeakAddress<M>)
        ensures
            address.id() == self.id(),
    {
        &self.address
    }
}

impl<M> Clone for Context<M> {
    /// One more context of the same executor.
    fn clone(&self) -> (copy: Self)
        ensures
            copy.id() == self.id(),
            copy.channel() == self.channel(),
    {
        Context { sender: clone_sender(&self.sender), address: self.address.clone() }
    }
}

/// A way to ask an executor to stop, for whoever is not the actor.
#[derive(Debug)]
pub struct ShutdownHandle(Sender<State>);

impl ShutdownHandle {
    /// The sending side of the executor's state channel.
    pub closed spec fn channel(&self) -> Sender<State> {
        self.0
    }

    /// Asks the executor to stop. Fails if the executor is gone.
    pub fn shutdown(&self) -> (result: Result<(), ActorError>)
        ensures
            result is Err ==> result == Err::<(), ActorError>(ActorError::Shutdown),
    {
        shutdown_result(force_send(&self.0, State::Shutdown))
    }
}

impl Clone for ShutdownHandle {
    /// One more handle of the same executor.
    fn clone(&self) -> (copy: Self)
        ensures
            copy.channel() == self.channel(),
    {
        ShutdownHandle(clone_sender(&self.0))
    }
}

/// The event loop of one actor. `M` is what its mailbox carries.
#[derive(Debug)]
#[verifier::reject_recursive_types(M)]
pub struct Executor<A, M> {
    actor: A,
    context: Context<M>,
    state: State,
    from_context: Receiver<State>,
    receiver: Receiver<M>,
}

impl<A, M> Executor<A, M> {
    /// The actor that the executor owns.
    pub closed spec fn actor(&self) -> A {
        self.actor
    }

    /// Where the loop stands.
    pub closed spec fn state(&self) -> State {
        self.state
    }

    /// The identity of the actor's address.
    pub closed spec fn id(&self) -> u64 {
        self.context.id()
    }

    /// The sending side of the state channel, as the actor's context and
    /// every shutdown handle hold it.
    pub closed spec fn state_channel(&self) -> Sender<State> {
        self.context.channel()
    }

    /// The receiving side of the state channel.
    pub closed spec fn state_source(&self) -> Receiver<State> {
        self.from_context
    }

    /// The receiving side of the mailbox.
    pub closed spec fn inbox(&self) -> Receiver<M> {
        self.receiver
    }

    /// An executor for `actor` with a mailbox of the usual capacity, and the
    /// first address of that mailbox.
    pub fn new(actor: A, counter: &mut AddressCounter) -> (made: (Self, Address<M>))
        ensures
            made.0.actor() == actor,
            made.0.state() == State::Continue,
            made.0.id() == old(counter)@,
            made.1.id() == old(counter)@,
            final(counter)@ == nth_identity(old(counter)@, 1),
    {
        Self::new_with_capacity(actor, DEFAULT_CAP, counter)
    }

    /// An executor for `actor` with a mailbox that holds up to `cap`
    /// messages, and the first address of that mailbox. The address gets the
    /// next identity of `counter`.
    pub fn new_with_capacity(actor: A, cap: usize, counter: &mut AddressCounter) -> (made: (
        Self,
        Address<M>,
    ))
        requires
            cap > 0,
        ensures
            made.0.actor() == actor,
            made.0.state() == State::Continue,
            made.0.id() == old(counter)@,
            made.1.id() == old(counter)@,
            final(counter)@ == nth_identity(old(counter)@, 1),
    {
        let (sender, receiver) = bounded(cap);
        let address = Address::new(sender, counter);
        let (state_tx, state_rx) = unbounded();
        let me = Executor {
            actor,
            receiver,
            context: Context { sender: state_tx, address: address.downgrade() },
            from_context: state_rx,
            state: State::default(),
        };
        (me, address)
    }

    /// A handle by which the actor can be asked to stop from elsewhere: it
    /// sends into the state channel of this executor.
    pub fn shutdown_handle(&self) -> (handle: ShutdownHandle)
        ensures
            handle.channel() == self.state_channel(),
    {
        let sender = clone_sender(&self.context.sender);
        ShutdownHandle(sender)
    }

    /// Makes the executor ready for a run: takes the state changes that are
    /// waiting out of the state channel and lets the loop go on, wherever it
    /// stood.
    pub fn reset_state(&mut self)
        ensures
            final(self).state() == State::Continue,
            final(self).actor() == old(self).actor(),
            final(self).id() == old(self).id(),
            final(self).state_channel() == old(self).state_channel(),
            final(self).state_source() == old(self).state_source(),
            final(self).inbox() == old(self).inbox(),
    {
        let pending = waiting(&self.from_context);
        let mut taken: usize = 0;
        while taken < pending
            invariant
                self.actor == old(self).actor,
                self.context == old(self).context,
                self.from_context == old(self).from_context,
                self.receiver == old(self).receiver,
            decreases pending - taken,
        {
            match try_recv(&self.from_context) {
                Ok(_) => {
                    taken += 1;
                },
                Err(_) => {
                    taken = pending;
                },
            }
        }
        self.state = State::Continue;
    }

    /// The actor.
    pub fn actor_ref(&self) -> (actor: &A)
        ensures
            *actor == self.actor(),
    {
        &self.actor
    }

    /// The actor, to be changed between runs.
    pub fn actor_mut(&mut self) -> (actor: &mut A)
        ensures
            *actor == old(self).actor(),
            final(self).actor() == *final(actor),
            final(self).state() == old(self).state(),
            final(self).id() == old(self).id(),
            final(self).state_channel() == old(self).state_channel(),
            final(self).state_source() == old(self).state_source(),
            final(self).inbox() == old(self).inbox(),
    {
        &mut self.actor
    }

    /// The context that the actor is given with every message.
    pub fn context(&self) -> (context: &Context<M>)
        ensures
            context.id() == self.id(),
            context.channel() == self.state_channel(),
    {
        &self.context
    }

    /// The actor together with its context, as a handler needs them.
    pub fn parts(&mut self) -> (parts: (&mut A, &Context<M>))
        ensures
            *parts.0 == old(self).actor(),
            parts.1.id() == old(self).id(),
            parts.1.channel() == old(self).state_channel(),
            final(self).actor() == *final(parts.0),
            final(self).state() == old(self).state(),
            final(self).id() == old(self).id(),
            final(self).state_channel() == old(self).state_channel(),
            final(self).state_source() == old(self).state_source(),
            final(self).inbox() == old(self).inbox(),
    {
        (&mut self.actor, &self.context)
    }

    /// The receiving side of the state channel, for whoever waits on it.
    pub fn state_receiver(&self) -> (receiver: &Receiver<State>)
        ensures
            *receiver == self.state_source(),
    {
        &self.from_context
    }

    /// The receiving side of the mailbox, for whoever waits on it.
    pub fn mailbox(&self) -> (receiver: &Receiver<M>)
        ensures
            *receiver == self.inbox(),
    {
        &self.receiver
    }

    /// Takes in what one wait of the loop brought. Hands back the message
    /// that the actor is to handle now, if there is one.
    pub fn observe(&mut self, event: Event<M>) -> (deliver: Option<M>)
        ensures
            (final(self).state(), deliver) == step(old(self).state(), event),
            final(self).actor() == old(self).actor(),
            final(self).id() == old(self).id(),
            final(self).state_channel() == old(self).state_channel(),
            final(self).state_source() == old(self).state_source(),
            final(self).inbox() == old(self).inbox(),
    {
        match self.state {
            State::Continue => match event {
                Event::State(next) => {
                    self.state = next;
                    None
                },
                Event::Envelope(message) => Some(message),
                Event::Closed => {
                    self.state = State::SendersClosed;
                    None
                },
            },
            _ => None,
        }
    }

    /// What the run has come to: nothing while the loop goes on, else its
    /// result.
    pub fn verdict(&self) -> (result: Option<Result<(), AddressError>>)
        ensures
            result == verdict_of(self.state()),
    {
        match self.state {
            State::Continue => None,
            State::Shutdown => Some(Ok(())),
            State::SendersClosed => Some(Err(AddressError::Closed)),
        }
    }
}

} // verus!
