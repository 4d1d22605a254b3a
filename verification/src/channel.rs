//! The message channels (`std::sync::mpsc`) that connect a scheduler to its
//! workers, as the library sees them: a sending end keeps a record of every
//! message handed to the channel and of whether the channel accepted it, and
//! the two ends of one channel carry the same label. Whether a message is
//! accepted, and what a receive gets, depend on the threads at the other end.

use vstd::prelude::*;

verus! {

#[verifier::external_type_specification]
#[verifier::external_body]
#[verifier::reject_recursive_types(T)]
pub struct ExSender<T>(std::sync::mpsc::Sender<T>);

#[verifier::external_type_specification]
#[verifier::external_body]
#[verifier::reject_recursive_types(T)]
pub struct ExReceiver<T>(std::sync::mpsc::Receiver<T>);

/// The sending end of a channel, with the messages handed to it so far and,
/// for each, whether the channel accepted it.
#[verifier::reject_recursive_types(T)]
pub struct Outbox<T> {
    sender: std::sync::mpsc::Sender<T>,
    offered: Ghost<Seq<T>>,
    accepted: Ghost<Seq<bool>>,
    channel: Ghost<int>,
}

/// The receiving end of a channel, with what its receives handed out.
#[verifier::reject_recursive_types(T)]
pub struct Inbox<T> {
    receiver: std::sync::mpsc::Receiver<T>,
    channel: Ghost<int>,
    deliveries: Deliveries<T>,
}

/// A record of what the receives through one receiving end handed out, in
/// order: `Some` with a message, or `None` for a closed channel. Only
/// `channel_recv` adds to it.
#[verifier::reject_recursive_types(T)]
pub struct Deliveries<T> {
    taken: Ghost<Seq<Option<T>>>,
}

impl<T> Deliveries<T> {
    /// What the receives handed out, in order.
    pub closed spec fn taken(&self) -> Seq<Option<T>> {
        self.taken@
    }

    /// A record of no receive yet.
    pub fn new() -> (deliveries: Self)
        ensures
            deliveries.taken() == Seq::<Option<T>>::empty(),
    {
        Deliveries { taken: Ghost(Seq::empty()) }
    }
}

impl<T> Outbox<T> {
    /// The messages handed to this end, in the order they were sent.
    pub closed spec fn offered(&self) -> Seq<T> {
        self.offered@
    }

    /// For each message handed over, whether the channel accepted it.
    pub closed spec fn accepted(&self) -> Seq<bool> {
        self.accepted@
    }

    /// The label of the channel this end belongs to.
    pub closed spec fn channel(&self) -> int {
        self.channel@
    }

    /// The std sending end this end sends through.
    pub closed spec fn sender(&self) -> std::sync::mpsc::Sender<T> {
        self.sender
    }
}

impl<T> Inbox<T> {
    /// The std receiving end this end receives from.
    pub closed spec fn receiver(&self) -> std::sync::mpsc::Receiver<T> {
        self.receiver
    }

    /// The label of the channel this end belongs to.
    pub closed spec fn channel(&self) -> int {
        self.channel@
    }

    /// What the receives through this end handed out, in order.
    pub closed spec fn taken(&self) -> Seq<Option<T>> {
        self.deliveries.taken()
    }

    /// Waits for the next message, as `channel_recv` does; what it hands out
    /// joins the record.
    pub fn recv(&mut self) -> (message: Option<T>)
        ensures
            final(self).taken() == old(self).taken().push(message),
            final(self).channel() == old(self).channel(),
            final(self).receiver() == old(self).receiver(),
    {
        channel_recv(&self.receiver, &mut self.deliveries)
    }
}

/// Opens a channel (`std::sync::mpsc::channel`) and gives its two ends, which
/// belong to one channel, with nothing handed over yet.
#[verifier::external_body]
pub(crate) fn open_channel<T>() -> (ends: (Outbox<T>, Inbox<T>))
    ensures
        ends.0.channel() == ends.1.channel(),
        ends.0.offered() == Seq::<T>::empty(),
        ends.1.taken() == Seq::<Option<T>>::empty(),
        ends.0.accepted() == Seq::<bool>::empty(),
{
    let (sender, receiver) = std::sync::mpsc::channel();
    (
        Outbox { sender, offered: Ghost(Seq::empty()), accepted: Ghost(Seq::empty()), channel: Ghost(0) },
        Inbox { receiver, channel: Ghost(0), deliveries: Deliveries::new() },
    )
}

/// Takes `sender`, a sending end made elsewhere, with nothing handed to it
/// yet; it sends through `sender`. Nothing is claimed of the channel's label.
#[verifier::external_body]
pub(crate) fn sending_end<T>(sender: std::sync::mpsc::Sender<T>) -> (outbox: Outbox<T>)
    ensures
        outbox.sender() == sender,
        outbox.offered() == Seq::<T>::empty(),
        outbox.accepted() == Seq::<bool>::empty(),
{
    Outbox { sender, offered: Ghost(Seq::empty()), accepted: Ghost(Seq::empty()), channel: Ghost(0) }
}

/// Takes `receiver`, a receiving end made elsewhere; it receives from
/// `receiver`. Nothing is claimed of the channel's label.
#[verifier::external_body]
pub(crate) fn receiving_end<T>(receiver: std::sync::mpsc::Receiver<T>) -> (inbox: Inbox<T>)
    ensures
        inbox.receiver() == receiver,
        inbox.taken() == Seq::<Option<T>>::empty(),
{
    Inbox { receiver, channel: Ghost(0), deliveries: Deliveries::new() }
}

/// Hands `message` to the channel (`Sender::send`): the message joins the
/// record, and so does the answer, `Ok` when the channel accepted it. When the
/// receiving end is gone the answer is `Err` with the very message given back
/// (std's `SendError` holds it). Which answer comes depends on the other
/// thread, so it is not stated.
#[verifier::external_body]
pub(crate) fn outbox_send<T>(outbox: &mut Outbox<T>, message: T) -> (result: Result<(), T>)
    ensures
        final(outbox).offered() == old(outbox).offered().push(message),
        final(outbox).accepted() == old(outbox).accepted().push(result is Ok),
        final(outbox).channel() == old(outbox).channel(),
        final(outbox).sender() == old(outbox).sender(),
        result matches Err(back) ==> back == message,
{
    match outbox.sender.send(message) {
        Ok(()) => Ok(()),
        Err(error) => Err(error.0),
    }
}

/// Waits for the next message on `receiver` (`Receiver::recv`): `Some` with
/// the message, or `None` once every sending end is gone. What it hands out
/// joins `deliveries`; what arrives depends on the other threads, so it is not
/// stated.
#[verifier::external_body]
pub(crate) fn channel_recv<T>(receiver: &std::sync::mpsc::Receiver<T>, deliveries: &mut Deliveries<T>) -> (message: Option<T>)
    ensures
        final(deliveries).taken() == old(deliveries).taken().push(message),
{
    receiver.recv().ok()
}

} // verus!
