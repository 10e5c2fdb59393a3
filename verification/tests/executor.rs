use black_box::executor::run_against_result;
use black_box::executor::shutdown_result;
use black_box::ActorError;
use black_box::ActorHandle;
use black_box::Address;
use black_box::AddressCounter;
use black_box::AddressError;
use black_box::Event;
use black_box::Executor;
use black_box::Finish;
use black_box::Handle;
use black_box::ResourcePool;
use black_box::State;

/// An actor that counts what it is sent.
struct Foo {
    count: u32,
}

enum Msg {
    Bump,
    Stop,
}

fn foo() -> (Executor<Foo, Msg>, Address<Msg>) {
    let mut counter = AddressCounter::new();
    Executor::new(Foo { count: 0 }, &mut counter)
}

/// What one wait of the loop brings, the state channel favoured, without
/// waiting: `None` where both channels are empty and open.
fn next_event(executor: &Executor<Foo, Msg>) -> Option<Event<Msg>> {
    if let Ok(state) = executor.state_receiver().try_recv() {
        return Some(Event::State(state));
    }
    match executor.mailbox().try_recv() {
        Ok(message) => Some(Event::Envelope(message)),
        Err(error) if error.is_closed() => Some(Event::Closed),
        Err(_) => None,
    }
}

/// Runs the loop on what is there, as a driver would, until it ends.
fn run(executor: &mut Executor<Foo, Msg>) -> Result<(), AddressError> {
    executor.reset_state();
    loop {
        if let Some(result) = executor.verdict() {
            return result;
        }
        let event = next_event(executor).expect("the test leaves nothing to wait for");
        if let Some(message) = executor.observe(event) {
            let (actor, context) = executor.parts();
            match message {
                Msg::Bump => actor.count += 1,
                Msg::Stop => context.shutdown(),
            }
        }
    }
}

#[test]
fn dropped_address_exits() {
    let (mut actor, addr) = foo();
    assert!(next_event(&actor).is_none());
    drop(addr);
    assert!(run(&mut actor).is_err())
}

#[test]
fn thousand_bumps_then_closed() {
    let mut counter = AddressCounter::new();
    let (mut executor, address): (Executor<Foo, Msg>, Address<Msg>) =
        Executor::new_with_capacity(Foo { count: 0 }, 1000, &mut counter);
    for _ in 0..1000 {
        address.try_send(Msg::Bump);
    }
    drop(address);
    assert_eq!(run(&mut executor), Err(AddressError::Closed));
    assert_eq!(executor.actor_ref().count, 1000);
}

#[test]
fn stop_ends_the_run_before_later_messages() {
    let (mut executor, address) = foo();
    address.try_send(Msg::Bump);
    address.try_send(Msg::Bump);
    address.try_send(Msg::Stop);
    address.try_send(Msg::Bump);
    assert_eq!(run(&mut executor), Ok(()));
    assert_eq!(executor.actor_ref().count, 2);
}

#[test]
fn pending_shutdown_comes_before_queued_messages() {
    let (mut executor, address) = foo();
    executor.reset_state();
    address.try_send(Msg::Bump);
    executor.context().shutdown();
    match next_event(&executor) {
        Some(Event::State(State::Shutdown)) => {}
        _ => panic!("the state change is favoured"),
    }
}

#[test]
fn second_run_handles_fresh_messages() {
    let (mut executor, address) = foo();
    address.try_send(Msg::Bump);
    address.try_send(Msg::Stop);
    assert_eq!(run(&mut executor), Ok(()));
    assert_eq!(executor.actor_ref().count, 1);
    assert_eq!(executor.verdict(), Some(Ok(())));
    address.try_send(Msg::Bump);
    address.try_send(Msg::Bump);
    address.try_send(Msg::Stop);
    assert_eq!(run(&mut executor), Ok(()));
    assert_eq!(executor.actor_ref().count, 3);
}

#[test]
fn reset_takes_waiting_state_changes_away() {
    let (mut executor, _address) = foo();
    executor.context().shutdown();
    executor.shutdown_handle().shutdown().unwrap();
    assert_eq!(executor.state_receiver().len(), 2);
    assert_eq!(executor.observe(Event::Closed).is_none(), true);
    assert_eq!(executor.verdict(), Some(Err(AddressError::Closed)));
    executor.reset_state();
    assert_eq!(executor.state_receiver().len(), 0);
    assert_eq!(executor.verdict(), None);
}

#[test]
fn observe_follows_the_transition_table() {
    let (mut executor, _address) = foo();
    assert_eq!(executor.verdict(), None);
    assert!(matches!(executor.observe(Event::Envelope(Msg::Bump)), Some(Msg::Bump)));
    assert_eq!(executor.verdict(), None);
    assert!(executor.observe(Event::State(State::Continue)).is_none());
    assert_eq!(executor.verdict(), None);
    assert!(executor.observe(Event::State(State::Shutdown)).is_none());
    assert_eq!(executor.verdict(), Some(Ok(())));
    // nothing moves a loop that has ended, and nothing is handed on
    assert!(executor.observe(Event::Envelope(Msg::Bump)).is_none());
    assert!(executor.observe(Event::Closed).is_none());
    assert!(executor.observe(Event::State(State::Continue)).is_none());
    assert_eq!(executor.verdict(), Some(Ok(())));
    executor.reset_state();
    assert!(executor.observe(Event::State(State::SendersClosed)).is_none());
    assert_eq!(executor.verdict(), Some(Err(AddressError::Closed)));
    assert!(executor.observe(Event::State(State::Shutdown)).is_none());
    assert_eq!(executor.verdict(), Some(Err(AddressError::Closed)));
}

#[test]
fn actor_can_be_changed_between_runs() {
    let (mut executor, address) = foo();
    executor.actor_mut().count = 40;
    address.try_send(Msg::Bump);
    address.try_send(Msg::Bump);
    drop(address);
    assert_eq!(run(&mut executor), Err(AddressError::Closed));
    assert_eq!(executor.actor_ref().count, 42);
}

#[test]
fn shutdown_handle_tells_when_the_executor_is_gone() {
    let (executor, _address) = foo();
    let handle = executor.shutdown_handle();
    let copy = handle.clone();
    assert_eq!(handle.shutdown(), Ok(()));
    assert!(matches!(executor.state_receiver().try_recv(), Ok(State::Shutdown)));
    let context = executor.context().clone();
    drop(executor);
    assert_eq!(copy.shutdown(), Err(ActorError::Shutdown));
    context.shutdown();
}

#[test]
fn shutdown_result_is_an_error_for_a_closed_channel() {
    let (sender, receiver) = async_channel::unbounded::<State>();
    assert_eq!(shutdown_result(sender.force_send(State::Shutdown)), Ok(()));
    drop(receiver);
    assert_eq!(shutdown_result(sender.force_send(State::Shutdown)), Err(ActorError::Shutdown));
}

#[test]
fn run_against_result_tells_who_was_first() {
    assert_eq!(run_against_result(Finish::Outrun), Ok(true));
    assert_eq!(run_against_result(Finish::Ran(Ok(()))), Ok(false));
    assert_eq!(
        run_against_result(Finish::Ran(Err(AddressError::Closed))),
        Err(AddressError::Closed)
    );
}

#[test]
fn actor_handle_stops_its_actor() {
    let (executor, _address) = foo();
    let pool = ResourcePool::new();
    let mut handle = ActorHandle::new(executor.shutdown_handle());
    handle.shutdown(&pool);
    assert!(matches!(executor.state_receiver().try_recv(), Ok(State::Shutdown)));
    let mut other = ActorHandle::from(executor.shutdown_handle()).clone();
    drop(executor);
    other.shutdown(&pool);
}

#[test]
fn state_starts_at_continue() {
    assert_eq!(State::default(), State::Continue);
}

#[test]
fn errors_have_their_messages() {
    assert_eq!(ActorError::Shutdown.message(), "Actor is already shutdown");
    assert_eq!(AddressError::Closed.message(), "All addresses closed for actor");
}

#[test]
fn reset_discards_an_early_shutdown_and_leaves_the_mailbox_alone() {
    let (mut executor, address) = foo();
    executor.shutdown_handle().shutdown().unwrap();
    address.try_send(Msg::Bump);
    drop(address);
    executor.reset_state();
    assert_eq!(executor.state_receiver().len(), 0);
    assert_eq!(executor.mailbox().len(), 1);
    assert_eq!(run(&mut executor), Err(AddressError::Closed));
    assert_eq!(executor.actor_ref().count, 1);
}
