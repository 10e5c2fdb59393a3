//! Addresses: the handles through which messages reach an actor's mailbox.
//!
//! An address has an identity, a number that it gets when its mailbox is
//! made and that it hands on to every copy and every weak address made from
//! it. Two addresses are equal if their identities are.

use crate::channel::clone_sender;
use crate::channel::clone_weak;
use crate::channel::downgrade;
use crate::channel::try_send;
use crate::channel::upgrade;
use async_channel::Sender;
use async_channel::WeakSender;
use vstd::prelude::*;

verus! {

/// The identity that comes `count` steps after `start`: identities count up
/// and start again at zero after the largest.
pub open spec fn nth_identity(start: u64, count: nat) -> u64 {
    ((start + count) % 0x1_0000_0000_0000_0000) as u64
}

/// Any two of fewer than 2^64 identities handed out one after the other
/// differ.
pub proof fn lemma_identities_differ(start: u64, i: nat, j: nat)
    requires
        i < j,
        j - i < 0x1_0000_0000_0000_0000,
    ensures
        nth_identity(start, i) != nth_identity(start, j),
{
    let m = 0x1_0000_0000_0000_0000int;
    let a = start + i;
    let b = start + j;
    if a % m == b % m {
        assert(a == m * (a / m) + a % m) by (nonlinear_arith)
            requires
                m > 0,
        ;
        assert(b == m * (b / m) + b % m) by (nonlinear_arith)
            requires
                m > 0,
        ;
        assert(b - a == m * (b / m - a / m)) by (nonlinear_arith)
            requires
                a == m * (a / m) + a % m,
                b == m * (b / m) + b % m,
                a % m == b % m,
        ;
        assert(false) by (nonlinear_arith)
            requires
                b - a == m * (b / m - a / m),
                0 < b - a < m,
        ;
    }
}

/// Counting on from an identity that was counted to is counting on from the
/// start.
pub proof fn lemma_identity_steps(start: u64, i: nat, j: nat)
    ensures
        nth_identity(nth_identity(start, i), j) == nth_identity(start, i + j),
{
    let m = 0x1_0000_0000_0000_0000int;
    let a = start + i;
    vstd::arithmetic::div_mod::lemma_add_mod_noop_right(j as int, a, m);
    assert((a % m) + j == j + (a % m));
    assert(a + j == j + a);
}

/// Hands out identities for addresses, each one larger than the one before.
///
/// A program keeps one counter for all its mailboxes, behind a lock where
/// several threads make mailboxes.
pub struct AddressCounter {
    next: u64,
}

impl AddressCounter {
    /// The identity that the counter hands out next.
    pub closed spec fn view(&self) -> u64 {
        self.next
    }

    /// A counter that starts at zero.
    pub fn new() -> (counter: Self)
        ensures
            counter@ == 0,
    {
        AddressCounter { next: 0 }
    }

    /// Hands out the next identity and moves on by one.
    pub fn mint(&mut self) -> (id: u64)
        ensures
            id == old(self)@,
            id == nth_identity(old(self)@, 0),
            final(self)@ == nth_identity(old(self)@, 1),
    {
        let id = self.next;
        self.next = if id == u64::MAX {
            0
        } else {
            id + 1
        };
        id
    }
}

/// A handle for sending to an actor's mailbox. It keeps the mailbox open.
///
/// `M` is what the mailbox carries.
#[derive(Debug)]
#[verifier::reject_recursive_types(M)]
pub struct Address<M> {
    id: u64,
    sender: Sender<M>,
}

impl<M> Address<M> {
    /// The identity of the address.
    pub closed spec fn id(&self) -> u64 {
        self.id
    }

    /// The sending side of the mailbox that the address sends to.
    pub closed spec fn channel(&self) -> Sender<M> {
        self.sender
    }

    /// An address for the sending side of a new mailbox, with the next
    /// identity of `counter`.
    pub fn new(sender: Sender<M>, counter: &mut AddressCounter) -> (address: Self)
        ensures
            address.id() == old(counter)@,
            address.channel() == sender,
            final(counter)@ == nth_identity(old(counter)@, 1),
    {
        let id = counter.mint();
        Address { id, sender }
    }

    /// The identity of the address.
    pub fn identity(&self) -> (id: u64)
        ensures
            id == self.id(),
    {
        self.id
    }

    /// The sending side of the mailbox, for whoever has to wait on it.
    pub fn sender(&self) -> (sender: &Sender<M>)
        ensures
            *sender == self.channel(),
    {
        &self.sender
    }

    /// A weak address of the same mailbox, with the same identity.
    pub fn downgrade(&self) -> (weak: WeakAddress<M>)
        ensures
            weak.id() == self.id(),
    {
        let sender = downgrade(&self.sender);
        WeakAddress::new(self.id, sender)
    }

    /// Puts `message` into the mailbox without waiting. Where the mailbox is
    /// full or closed, the message is dropped and nobody is told.
    pub fn try_send(&self, message: M) {
        let _ = try_send(&self.sender, message);
    }
}

impl<M> Clone for Address<M> {
    /// One more address of the same mailbox, with the same identity.
    fn clone(&self) -> (copy: Self)
        ensures
            copy.id() == self.id(),
            copy.channel() == self.channel(),
    {
        Address { sender: clone_sender(&self.sender), id: self.id }
    }
}

impl<M> PartialEq for Address<M> {
    fn eq(&self, other: &Self) -> (same: bool) {
        self.id == other.id
    }
}

impl<M> vstd::std_specs::cmp::PartialEqSpecImpl for Address<M> {
    open spec fn obeys_eq_spec() -> bool {
        true
    }

    open spec fn eq_spec(&self, other: &Self) -> bool {
        self.id() == other.id()
    }
}

/// A handle for an actor's mailbox that does not keep the mailbox open.
#[derive(Debug)]
#[verifier::reject_recursive_types(M)]
pub struct WeakAddress<M> {
    id: u64,
    sender: WeakSender<M>,
}

impl<M> WeakAddress<M> {
    /// The identity of the address that this one was made from.
    pub closed spec fn id(&self) -> u64 {
        self.id
    }

    /// The weak sending side of the mailbox.
    pub closed spec fn channel(&self) -> WeakSender<M> {
        self.sender
    }

    /// A weak address with the given identity.
    pub(crate) fn new(id: u64, sender: WeakSender<M>) -> (weak: Self)
        ensures
            weak.id() == id,
            weak.channel() == sender,
    {
        WeakAddress { id, sender }
    }

    /// The identity of the address that this one was made from.
    pub fn identity(&self) -> (id: u64)
        ensures
            id == self.id(),
    {
        self.id
    }

    /// The address that a sending side of the mailbox makes, with the
    /// identity of this weak address; none where there is no sending side.
    pub fn strong(&self, sender: Option<Sender<M>>) -> (address: Option<Address<M>>)
        ensures
            address is Some <==> sender is Some,
            address matches Some(strong) ==> strong.id() == self.id() && Some(strong.channel())
                == sender,
    {
        match sender {
            Some(sender) => Some(Address { id: self.id, sender }),
            None => None,
        }
    }

    /// An address of the same mailbox, with the same identity, if the
    /// mailbox is still kept open by some address.
    pub fn upgrade(&self) -> (address: Option<Address<M>>)
        ensures
            address matches Some(strong) ==> strong.id() == self.id(),
    {
        self.strong(upgrade(&self.sender))
    }
}

impl<M> Clone for WeakAddress<M> {
    /// One more weak address of the same mailbox, with the same identity.
    fn clone(&self) -> (copy: Self)
        ensures
            copy.id() == self.id(),
            copy.channel() == self.channel(),
    {
        WeakAddress { id: self.id, sender: clone_weak(&self.sender) }
    }
}

} // verus!
