use black_box::Address;
use black_box::AddressCounter;
use black_box::Executor;

struct Act;

struct Msg;

fn executor(counter: &mut AddressCounter) -> (Executor<Act, Msg>, Address<Msg>) {
    Executor::new(Act, counter)
}

#[test]
fn partial_eq_on_clone() {
    let mut counter = AddressCounter::new();
    let (_executor, address) = executor(&mut counter);
    let same_address = address.clone();
    assert!(address.eq(&same_address));
}

#[test]
fn partial_eq_on_different_addrs() {
    let mut counter = AddressCounter::new();
    let (_executor_1, address_1) = executor(&mut counter);
    let (_executor_2, address_2) = executor(&mut counter);
    assert!(address_1.ne(&address_2));
}

#[test]
fn partial_eq_on_a_thousand_different_addrs() {
    let mut counter = AddressCounter::new();
    let mut addrs: Vec<Address<Msg>> = Vec::new();
    for _ in 0..1_000 {
        let (_executor_1, address) = executor(&mut counter);
        for addr in addrs.iter() {
            assert!(addr.ne(&address));
        }
        addrs.push(address);
    }
}

#[test]
fn identities_count_up_from_zero() {
    let mut counter = AddressCounter::new();
    assert_eq!(counter.mint(), 0);
    assert_eq!(counter.mint(), 1);
    assert_eq!(counter.mint(), 2);
    let (_executor, address) = executor(&mut counter);
    assert_eq!(address.identity(), 3);
    assert_eq!(counter.mint(), 4);
}

#[test]
fn downgrade_and_upgrade_keep_the_identity() {
    let mut counter = AddressCounter::new();
    counter.mint();
    let (_executor, address) = executor(&mut counter);
    let weak = address.downgrade();
    assert_eq!(weak.identity(), address.identity());
    assert_eq!(weak.clone().identity(), 1);
    let again = weak.upgrade().unwrap();
    assert!(again == address);
    assert_eq!(again.identity(), 1);
    // a later address is another one
    let (_other_executor, other) = executor(&mut counter);
    assert!(other != again);
}

#[test]
fn weak_address_does_not_keep_the_mailbox_open() {
    let mut counter = AddressCounter::new();
    let (executor, address) = executor(&mut counter);
    let weak = address.downgrade();
    let copy = address.clone();
    drop(address);
    assert!(weak.upgrade().is_some());
    drop(copy);
    assert!(weak.upgrade().is_none());
    assert!(executor.context().address().upgrade().is_none());
}

#[test]
fn context_carries_the_weak_address_of_the_actor() {
    let mut counter = AddressCounter::new();
    counter.mint();
    counter.mint();
    let (executor, address) = executor(&mut counter);
    let context = executor.context().clone();
    assert_eq!(context.address().identity(), 2);
    assert!(context.address().upgrade().unwrap() == address);
}

#[test]
fn try_send_puts_messages_into_the_mailbox_in_order() {
    let mut counter = AddressCounter::new();
    let (executor, address): (Executor<Act, u32>, Address<u32>) = Executor::new(Act, &mut counter);
    address.try_send(1);
    address.clone().try_send(2);
    address.try_send(3);
    assert_eq!(executor.mailbox().try_recv().ok(), Some(1));
    assert_eq!(executor.mailbox().try_recv().ok(), Some(2));
    assert_eq!(executor.mailbox().try_recv().ok(), Some(3));
    assert!(executor.mailbox().try_recv().is_err());
}

#[test]
fn try_send_drops_what_a_full_mailbox_cannot_take() {
    let mut counter = AddressCounter::new();
    let (executor, address): (Executor<Act, u32>, Address<u32>) =
        Executor::new_with_capacity(Act, 2, &mut counter);
    address.try_send(1);
    address.try_send(2);
    address.try_send(3);
    assert_eq!(executor.mailbox().len(), 2);
    assert_eq!(executor.mailbox().try_recv().ok(), Some(1));
    assert_eq!(executor.mailbox().try_recv().ok(), Some(2));
    assert!(executor.mailbox().try_recv().is_err());
}

#[test]
fn try_send_to_a_closed_mailbox_is_silent() {
    let mut counter = AddressCounter::new();
    let (executor, address): (Executor<Act, u32>, Address<u32>) = Executor::new(Act, &mut counter);
    drop(executor);
    address.try_send(1);
    assert!(address.sender().is_closed());
}

#[test]
fn default_capacity_is_one_hundred() {
    let mut counter = AddressCounter::new();
    let (executor, address): (Executor<Act, u32>, Address<u32>) = Executor::new(Act, &mut counter);
    assert_eq!(black_box::executor::DEFAULT_CAP, 100);
    assert_eq!(address.sender().capacity(), Some(100));
    for n in 0..150 {
        address.try_send(n);
    }
    assert_eq!(executor.mailbox().len(), 100);
}

#[test]
fn strong_address_comes_from_a_sending_side() {
    let mut counter = AddressCounter::new();
    counter.mint();
    let (executor, address): (Executor<Act, u32>, Address<u32>) = Executor::new(Act, &mut counter);
    let weak = address.downgrade();
    assert!(weak.strong(None).is_none());
    let strong = weak.strong(Some(address.sender().clone())).unwrap();
    assert_eq!(strong.identity(), 1);
    assert!(strong == address);
    strong.try_send(5);
    assert_eq!(executor.mailbox().try_recv().ok(), Some(5));
}
