//! A race between two futures in which the first is favoured.

use std::task::Poll;
use vstd::prelude::*;

verus! {

/// std's `Poll`: what one poll of a future hands out.
#[verifier::external_type_specification]
#[verifier::reject_recursive_types(T)]
pub struct ExPoll<T>(Poll<T>);

/// Two futures that race against one another, the first favoured over the
/// second.
pub struct RaceBiased<F1, F2> {
    first: F1,
    second: F2,
}

/// Races two futures against one another, favouring the first over the
/// second.
pub fn race_biased<F1, F2>(first: F1, second: F2) -> (race: RaceBiased<F1, F2>)
    ensures
        race.first() == first,
        race.second() == second,
{
    RaceBiased { first, second }
}

/// What one poll of the race hands out, given what a poll of each future
/// hands out: the first's result if it is ready, else the second's.
pub open spec fn favoured<T>(first: Poll<T>, second: Poll<T>) -> Poll<T> {
    match first {
        Poll::Ready(_) => first,
        Poll::Pending => second,
    }
}

impl<F1, F2> RaceBiased<F1, F2> {
    /// The favoured future.
    pub closed spec fn first(self) -> F1 {
        self.first
    }

    /// The other future.
    pub closed spec fn second(self) -> F2 {
        self.second
    }

    /// Takes the race apart into its two futures, the favoured one first.
    pub fn into_parts(self) -> (parts: (F1, F2))
        ensures
            parts == (self.first(), self.second()),
    {
        (self.first, self.second)
    }

    /// One poll of the race. `first` is what the poll of the favoured future
    /// handed out. The other future is polled, by a call of `second`, only
    /// if the favoured one is not ready; the race then hands out what that
    /// poll did. It is pending only if both are.
    pub fn decide<T, P: FnOnce() -> Poll<T>>(first: Poll<T>, second: P) -> (out: Poll<T>)
        requires
            first is Pending ==> call_requires(second, ()),
        ensures
            first is Ready ==> out == first,
            first is Pending ==> call_ensures(second, (), out),
            exists|other: Poll<T>| out == #[trigger] favoured(first, other),
    {
        match first {
            Poll::Ready(value) => {
                assert(Poll::Ready(value) == favoured(first, Poll::<T>::Pending));
                Poll::Ready(value)
            },
            Poll::Pending => {
                let out = second();
                assert(out == favoured(first, out));
                out
            },
        }
    }
}

} // verus!
