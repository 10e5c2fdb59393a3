//! The channels that carry messages and state changes.
//!
//! They are those of the crate `async_channel`. The verifier sees none of
//! what happens inside a channel, and other threads may use one at any time,
//! so almost nothing is claimed of these calls: each function here makes one
//! call and says what it is. In contracts two sending sides are the same
//! value if they are sending sides of one channel.

use async_channel::Receiver;
use async_channel::SendError;
use async_channel::Sender;
use async_channel::TryRecvError;
use async_channel::TrySendError;
use async_channel::WeakSender;
use vstd::prelude::*;

verus! {

/// The sending side of a channel.
#[verifier::external_type_specification]
#[verifier::external_body]
#[verifier::reject_recursive_types(T)]
pub struct ExSender<T>(Sender<T>);

/// The receiving side of a channel.
#[verifier::external_type_specification]
#[verifier::external_body]
#[verifier::reject_recursive_types(T)]
pub struct ExReceiver<T>(Receiver<T>);

/// A sending side that does not keep the channel open.
#[verifier::external_type_specification]
#[verifier::external_body]
#[verifier::reject_recursive_types(T)]
pub struct ExWeakSender<T>(WeakSender<T>);

/// What `force_send` hands back with the message when the channel is closed.
#[verifier::external_type_specification]
#[verifier::reject_recursive_types(T)]
pub struct ExSendError<T>(SendError<T>);

/// What `try_send` hands back with the message when the channel is full or
/// closed.
#[verifier::external_type_specification]
#[verifier::reject_recursive_types(T)]
pub struct ExTrySendError<T>(TrySendError<T>);

/// Why `try_recv` handed out nothing: the channel is empty, or empty and
/// closed.
#[verifier::external_type_specification]
pub struct ExTryRecvError(TryRecvError);

/// `async_channel::bounded`: a channel that holds at most `cap` messages.
/// The call panics on a capacity of zero.
#[verifier::external_body]
pub(crate) fn bounded<T>(cap: usize) -> (ends: (Sender<T>, Receiver<T>))
    requires
        cap > 0,
{
    async_channel::bounded(cap)
}

/// `async_channel::unbounded`: a channel that holds any number of messages.
#[verifier::external_body]
pub(crate) fn unbounded<T>() -> (ends: (Sender<T>, Receiver<T>)) {
    async_channel::unbounded()
}

/// `Sender::try_send`: puts the message into the channel unless it is full
/// or closed, without waiting.
#[verifier::external_body]
pub(crate) fn try_send<T>(sender: &Sender<T>, msg: T) -> (sent: Result<(), TrySendError<T>>) {
    sender.try_send(msg)
}

/// `Sender::force_send`: puts the message into the channel unless it is
/// closed, pushing out the oldest message if the channel is full.
#[verifier::external_body]
pub(crate) fn force_send<T>(sender: &Sender<T>, msg: T) -> (sent: Result<
    Option<T>,
    SendError<T>,
>) {
    sender.force_send(msg)
}

/// `Sender::clone`: one more sending side of the same channel. (The call
/// ends the process if more than half of `usize::MAX` senders exist.)
#[verifier::external_body]
pub(crate) fn clone_sender<T>(sender: &Sender<T>) -> (copy: Sender<T>)
    ensures
        copy == *sender,
{
    sender.clone()
}

/// `Sender::downgrade`: a sending side that does not keep the channel open.
#[verifier::external_body]
pub(crate) fn downgrade<T>(sender: &Sender<T>) -> (weak: WeakSender<T>) {
    sender.downgrade()
}

/// `WeakSender::upgrade`: a sending side of the channel, unless the channel
/// is closed or has no sender left.
#[verifier::external_body]
pub(crate) fn upgrade<T>(weak: &WeakSender<T>) -> (sender: Option<Sender<T>>) {
    weak.upgrade()
}

/// `WeakSender::clone`: one more weak sending side of the same channel.
#[verifier::external_body]
pub(crate) fn clone_weak<T>(weak: &WeakSender<T>) -> (copy: WeakSender<T>)
    ensures
        copy == *weak,
{
    weak.clone()
}

/// `Receiver::try_recv`: the oldest message of the channel, without waiting.
#[verifier::external_body]
pub(crate) fn try_recv<T>(receiver: &Receiver<T>) -> (received: Result<T, TryRecvError>) {
    receiver.try_recv()
}

/// `Receiver::len`: how many messages the channel holds at this moment.
#[verifier::external_body]
pub(crate) fn waiting<T>(receiver: &Receiver<T>) -> (count: usize) {
    receiver.len()
}

} // verus!
