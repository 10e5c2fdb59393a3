use black_box::race_biased;
use black_box::RaceBiased;
use std::task::Poll;

/// A future for the tests: pending for a number of polls, then ready.
struct After {
    polls_left: u32,
    value: bool,
}

impl After {
    fn poll(&mut self) -> Poll<bool> {
        if self.polls_left == 0 {
            Poll::Ready(self.value)
        } else {
            self.polls_left -= 1;
            Poll::Pending
        }
    }
}

/// Polls the race until it is ready and counts the polls of each side.
fn run(first: After, second: After) -> (bool, u32, u32) {
    let (mut first, mut second) = race_biased(first, second).into_parts();
    let mut first_polls = 0;
    let mut second_polls = 0;
    loop {
        first_polls += 1;
        let polled = first.poll();
        let out = RaceBiased::<After, After>::decide(polled, || {
            second_polls += 1;
            second.poll()
        });
        if let Poll::Ready(value) = out {
            return (value, first_polls, second_polls);
        }
    }
}

#[test]
fn race_biased_on_ready() {
    let first = After { polls_left: 0, value: true };
    let second = After { polls_left: 0, value: false };
    let (result, first_polls, second_polls) = run(first, second);
    assert!(result);
    assert_eq!(first_polls, 1);
    assert_eq!(second_polls, 0);
}

#[test]
fn race_biased_on_not_ready() {
    let first = After { polls_left: 250, value: false };
    let second = After { polls_left: 100, value: true };
    let (result, first_polls, second_polls) = run(first, second);
    assert!(result);
    assert_eq!(first_polls, 101);
    assert_eq!(second_polls, 101);
}

#[test]
fn race_biased_on_one_ready() {
    let first = After { polls_left: 250, value: false };
    let second = After { polls_left: 0, value: true };
    let (result, _, _) = run(first, second);
    assert!(result);
}

#[test]
fn race_is_pending_only_if_both_are() {
    let out = RaceBiased::<(), ()>::decide(Poll::<u8>::Pending, || Poll::Pending);
    assert_eq!(out, Poll::Pending);
    let out = RaceBiased::<(), ()>::decide(Poll::Ready(1u8), || Poll::Pending);
    assert_eq!(out, Poll::Ready(1));
    let out = RaceBiased::<(), ()>::decide(Poll::Pending, || Poll::Ready(2u8));
    assert_eq!(out, Poll::Ready(2));
    let out = RaceBiased::<(), ()>::decide(Poll::Ready(1u8), || Poll::Ready(2u8));
    assert_eq!(out, Poll::Ready(1));
}

#[test]
fn race_keeps_its_futures_in_order() {
    let (first, second) = race_biased("first", 2u8).into_parts();
    assert_eq!(first, "first");
    assert_eq!(second, 2);
}
