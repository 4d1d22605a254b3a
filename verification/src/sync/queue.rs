//! A first-in first-out queue that producers can close.
//!
//! The queue's state and every decision that `send`, `recv` and `close` make
//! are here. A queue shared between threads keeps it behind a lock and waits
//! on a condition variable when `poll` answers `Wait`.

use std::collections::VecDeque;
use vstd::prelude::*;

verus! {

/// Accepts items.
pub trait Sender<T> {
    fn send(&mut self, item: T);
}

/// Stops a queue from accepting items.
pub trait Closer<T> {
    fn close(&mut self) -> Result<(), ErrAlreadyClosed>;
}

/// Hands out items.
pub trait Receiver<T> {
    /// Whether a receive can be answered now, without waiting for an item
    /// that only another thread could send.
    spec fn can_answer(&self) -> bool;

    fn recv(&mut self) -> Option<T>
        requires
            old(self).can_answer(),
    ;
}

/// The error of closing a queue that is already closed.
#[derive(Debug, Clone, Copy, PartialEq, Eq, Structural)]
pub struct ErrAlreadyClosed {}

/// What a send did.
#[derive(Debug, Clone, Copy, PartialEq, Eq, Structural)]
pub enum SendAction {
    /// The queue is closed; the item was dropped.
    Dropped,
    /// The item was queued; nobody was waiting for one.
    Queued,
    /// The item was queued and receivers were waiting: wake them all.
    QueuedWakeAll,
}

/// What a receiver should do next.
pub enum RecvStep<T> {
    /// Take this item, the oldest one queued.
    Item(T),
    /// Nothing is queued and nothing more will be: give up.
    Closed,
    /// Nothing is queued yet: wait until a sender wakes you, then ask again.
    Wait,
}

/// A multi-producer multi-consumer queue: the queued items, oldest first,
/// whether it is closed, and how many receivers wait for an item.
pub struct MPMCQueue<T: Send + Sync> {
    buffer: VecDeque<T>,
    waiters: i32,
    closed: bool,
}

/// The queued items after `item` was sent: appended at the back of an open
/// queue, dropped by a closed one.
pub open spec fn after_send<T>(items: Seq<T>, closed: bool, item: T) -> Seq<T> {
    if closed { items } else { items.push(item) }
}

/// What a receive hands out: the oldest item, if there is one.
pub open spec fn front<T>(items: Seq<T>) -> Option<T> {
    if items.len() == 0 { None } else { Some(items[0]) }
}

/// The queued items after a receive.
pub open spec fn after_recv<T>(items: Seq<T>) -> Seq<T> {
    if items.len() == 0 { items } else { items.drop_first() }
}

impl<T: Send + Sync> MPMCQueue<T> {
    /// The queued items, oldest first.
    pub closed spec fn items(&self) -> Seq<T> {
        self.buffer@
    }

    /// Whether the queue is closed.
    pub closed spec fn is_closed(&self) -> bool {
        self.closed
    }

    /// How many receivers are waiting for an item.
    pub closed spec fn waiting(&self) -> i32 {
        self.waiters
    }

    /// An open, empty queue.
    pub fn new() -> (queue: Self)
        ensures
            queue.items() == Seq::<T>::empty(),
            !queue.is_closed(),
            queue.waiting() == 0,
    {
        MPMCQueue { buffer: VecDeque::new(), waiters: 0, closed: false }
    }

    /// Offers `item`: a closed queue drops it, an open one queues it at the
    /// back. When receivers were waiting, the count of waiters is reset and
    /// the answer asks to wake them all.
    pub fn offer(&mut self, item: T) -> (action: SendAction)
        ensures
            offers(*old(self), *final(self), item, action),
    {
        if self.closed {
            return SendAction::Dropped;
        }
        self.buffer.push_back(item);
        if self.waiters > 0 {
            self.waiters = 0;
            SendAction::QueuedWakeAll
        } else {
            SendAction::Queued
        }
    }

    /// One attempt to receive: the oldest item if there is one; otherwise
    /// `Closed` on a closed queue, and on an open one the caller joins the
    /// waiters (a count that wraps around on overflow) and waits.
    pub fn poll(&mut self) -> (step: RecvStep<T>)
        ensures
            polls(*old(self), *final(self), step),
    {
        match self.buffer.pop_front() {
            Some(item) => RecvStep::Item(item),
            None => {
                if self.closed {
                    RecvStep::Closed
                } else {
                    self.waiters = self.waiters.wrapping_add(1);
                    RecvStep::Wait
                }
            },
        }
    }
}

impl<T: Send + Sync> Default for MPMCQueue<T> {
    fn default() -> (queue: Self)
        ensures
            queue.items() == Seq::<T>::empty(),
            !queue.is_closed(),
            queue.waiting() == 0,
    {
        Self::new()
    }
}

impl<T: Send + Sync> Sender<T> for MPMCQueue<T> {
    /// Queues `item` at the back unless the queue is closed; an open queue
    /// forgets its waiters, which a sender sharing it wakes.
    fn send(&mut self, item: T)
        ensures
            final(self).items() == after_send(old(self).items(), old(self).is_closed(), item),
            final(self).is_closed() == old(self).is_closed(),
            final(self).waiting() == waiting_after_send(old(self).is_closed(), old(self).waiting()),
    {
        self.offer(item);
    }
}

impl<T: Send + Sync> Receiver<T> for MPMCQueue<T> {
    /// A closed queue always answers; an open one only while it holds an
    /// item. (An open, empty queue makes its receiver wait: for the one who
    /// holds the whole queue, forever; a shared queue waits as `poll` says.)
    open spec fn can_answer(&self) -> bool {
        self.is_closed() || self.items().len() > 0
    }

    /// Takes the oldest queued item; `None` only from a closed, drained queue.
    fn recv(&mut self) -> (item: Option<T>)
        ensures
            item == front(old(self).items()),
            item is None ==> old(self).is_closed() && old(self).items().len() == 0,
            final(self).items() == after_recv(old(self).items()),
            final(self).is_closed() == old(self).is_closed(),
            final(self).waiting() == old(self).waiting(),
    {
        self.buffer.pop_front()
    }
}

/// The waiter count after a send: an open queue forgets its waiters (they
/// are woken), a closed one keeps the count.
pub open spec fn waiting_after_send(closed: bool, waiting: i32) -> i32 {
    if !closed && waiting > 0 { 0 } else { waiting }
}

/// One `offer(item)`, from `before` to `after`, answered with `action`.
pub open spec fn offers<T: Send + Sync>(before: MPMCQueue<T>, after: MPMCQueue<T>, item: T, action: SendAction) -> bool {
    &&& after.items() == after_send(before.items(), before.is_closed(), item)
    &&& after.is_closed() == before.is_closed()
    &&& action == if before.is_closed() {
        SendAction::Dropped
    } else if before.waiting() > 0 {
        SendAction::QueuedWakeAll
    } else {
        SendAction::Queued
    }
    &&& after.waiting() == waiting_after_send(before.is_closed(), before.waiting())
}

/// One `poll`, from `before` to `after`, answered with `step`.
pub open spec fn polls<T: Send + Sync>(before: MPMCQueue<T>, after: MPMCQueue<T>, step: RecvStep<T>) -> bool {
    &&& after.items() == after_recv(before.items())
    &&& after.is_closed() == before.is_closed()
    &&& match step {
        RecvStep::Item(x) => front(before.items()) == Some(x) && after.waiting() == before.waiting(),
        RecvStep::Closed => before.items().len() == 0 && before.is_closed() && after.waiting() == before.waiting(),
        RecvStep::Wait => before.items().len() == 0 && !before.is_closed()
            && after.waiting() == before.waiting().wrapping_add(1),
    }
}

/// No wake-up is lost: a receiver that found an open queue empty and joined
/// the waiters is woken by the next send, and its next poll hands out the
/// sent item (when no other receiver took it in between).
pub proof fn law_send_wakes_waiting_receiver<T: Send + Sync>(
    q0: MPMCQueue<T>,
    q1: MPMCQueue<T>,
    q2: MPMCQueue<T>,
    q3: MPMCQueue<T>,
    item: T,
    action: SendAction,
    step: RecvStep<T>,
)
    requires
        0 <= q0.waiting() < i32::MAX,
        polls(q0, q1, RecvStep::Wait),
        offers(q1, q2, item, action),
        polls(q2, q3, step),
    ensures
        action == SendAction::QueuedWakeAll,
        step matches RecvStep::Item(x) && x == item,
{
    assert(q1.waiting() == q0.waiting() + 1) by {
        assert(q0.waiting().wrapping_add(1) == q0.waiting() + 1);
    }
    assert(q1.items().len() == 0);
    assert(q2.items() =~= seq![item]);
}

/// A poll hands out the oldest queued item and leaves the rest in order;
/// only an empty queue answers `Closed` (when closed) or `Wait` (when open).
pub proof fn law_poll_hands_out_oldest<T: Send + Sync>(q0: MPMCQueue<T>, q1: MPMCQueue<T>, step: RecvStep<T>)
    requires
        polls(q0, q1, step),
    ensures
        q0.items().len() > 0 ==> (step matches RecvStep::Item(x) && x == q0.items()[0]
            && q1.items() == q0.items().subrange(1, q0.items().len() as int)),
        step is Closed ==> q0.items().len() == 0 && q0.is_closed(),
        step is Wait ==> q0.items().len() == 0 && !q0.is_closed(),
        q1.is_closed() == q0.is_closed(),
{
    if q0.items().len() > 0 {
        assert(q0.items().drop_first() =~= q0.items().subrange(1, q0.items().len() as int));
    }
}

/// One close, from `before` to `after` with this `result`: the queue ends up
/// closed with its items and waiters as they were, and the close fails exactly
/// when the queue was closed already.
pub open spec fn closes<T: Send + Sync>(before: MPMCQueue<T>, after: MPMCQueue<T>, result: Result<(), ErrAlreadyClosed>) -> bool {
    &&& result == if before.is_closed() { Err(ErrAlreadyClosed {}) } else { Ok(()) }
    &&& after.is_closed()
    &&& after.items() == before.items()
    &&& after.waiting() == before.waiting()
}

impl<T: Send + Sync> Closer<T> for MPMCQueue<T> {
    /// Closes the queue; closing it a second time is an error. Queued items stay.
    fn close(&mut self) -> (result: Result<(), ErrAlreadyClosed>)
        ensures
            closes(*old(self), *final(self), result),
    {
        if self.closed {
            return Err(ErrAlreadyClosed {});
        }
        self.closed = true;
        Ok(())
    }
}

/// The queued items after sending each of `sent` in turn.
pub open spec fn after_sends<T>(items: Seq<T>, closed: bool, sent: Seq<T>) -> Seq<T>
    decreases sent.len(),
{
    if sent.len() == 0 {
        items
    } else {
        after_send(after_sends(items, closed, sent.drop_last()), closed, sent.last())
    }
}

/// What `n` receives in a row hand out, starting from `items`.
pub open spec fn received<T>(items: Seq<T>, n: nat) -> Seq<Option<T>>
    decreases n,
{
    if n == 0 {
        Seq::empty()
    } else {
        seq![front(items)] + received(after_recv(items), (n - 1) as nat)
    }
}

/// Items come out in the order they went in: on an open queue holding
/// `items`, sending `sent` and then receiving once per item hands out every
/// queued item and then every sent one, oldest first.
pub proof fn law_first_in_first_out<T>(items: Seq<T>, sent: Seq<T>)
    ensures
        received(after_sends(items, false, sent), items.len() + sent.len())
            == (items + sent).map_values(|x: T| Some(x)),
{
    lemma_sends_append(items, sent);
    lemma_receive_all(items + sent);
}

/// Closing an open queue always succeeds and closes it, whatever it holds;
/// closing a closed one fails. Either way the queued items stay.
pub proof fn law_close_open_queue_succeeds<T: Send + Sync>(
    q0: MPMCQueue<T>,
    q1: MPMCQueue<T>,
    result: Result<(), ErrAlreadyClosed>,
)
    requires
        closes(q0, q1, result),
    ensures
        !q0.is_closed() ==> result == Ok::<(), ErrAlreadyClosed>(()) && q1.is_closed(),
        q0.is_closed() ==> result == Err::<(), ErrAlreadyClosed>(ErrAlreadyClosed {}) && q1.is_closed(),
        q1.items() == q0.items(),
{
}

/// A queue can be closed only once: after any close, closing again fails
/// with `ErrAlreadyClosed` and leaves the queued items alone.
pub proof fn law_close_succeeds_once<T: Send + Sync>(
    q0: MPMCQueue<T>,
    q1: MPMCQueue<T>,
    q2: MPMCQueue<T>,
    first: Result<(), ErrAlreadyClosed>,
    second: Result<(), ErrAlreadyClosed>,
)
    requires
        closes(q0, q1, first),
        closes(q1, q2, second),
    ensures
        second == Err::<(), ErrAlreadyClosed>(ErrAlreadyClosed {}),
        q2.items() == q0.items(),
{
}

/// Send, close, drain: items sent one by one to an open, empty queue that
/// is then closed (which keeps them) come out in the order sent, one per
/// receive, and the receive after the last of them hands out `None`.
pub proof fn law_sends_then_close_drain<T>(sent: Seq<T>)
    ensures
        received(after_sends(Seq::<T>::empty(), false, sent), sent.len() + 1)
            == sent.map_values(|x: T| Some(x)).push(None),
{
    lemma_sends_append(Seq::<T>::empty(), sent);
    assert(Seq::<T>::empty() + sent =~= sent);
    law_received_past_end(sent, 1);
    assert(sent.map_values(|x: T| Some(x)) + Seq::new(1, |i: int| None::<T>)
        =~= sent.map_values(|x: T| Some(x)).push(None));
}

/// A closed queue takes no more items: sending any number of them leaves
/// the queued items as they were.
pub proof fn law_closed_queue_drops_sends<T>(items: Seq<T>, sent: Seq<T>)
    ensures
        after_sends(items, true, sent) == items,
    decreases sent.len(),
{
    if sent.len() > 0 {
        law_closed_queue_drops_sends(items, sent.drop_last());
    }
}

/// Once everything queued has been received, receiving more hands out nothing.
pub proof fn law_received_past_end<T>(items: Seq<T>, extra: nat)
    ensures
        received(items, items.len() + extra)
            == items.map_values(|x: T| Some(x)) + Seq::new(extra, |i: int| None::<T>),
    decreases items.len(),
{
    if items.len() == 0 {
        assert(items =~= Seq::<T>::empty());
        lemma_received_empty::<T>(extra);
        assert(items.map_values(|x: T| Some(x)) =~= Seq::<Option<T>>::empty());
        assert(Seq::<Option<T>>::empty() + Seq::new(extra, |i: int| None::<T>) =~= Seq::new(extra, |i: int| None::<T>));
    } else {
        let rest = items.drop_first();
        law_received_past_end(rest, extra);
        assert((items.len() + extra - 1) as nat == rest.len() + extra);
        assert(items.map_values(|x: T| Some(x)) =~= seq![Some(items[0])] + rest.map_values(|x: T| Some(x)));
        assert(received(items, items.len() + extra) =~= seq![Some(items[0])] + received(rest, rest.len() + extra));
        assert(seq![Some(items[0])] + (rest.map_values(|x: T| Some(x)) + Seq::new(extra, |i: int| None::<T>))
            =~= (seq![Some(items[0])] + rest.map_values(|x: T| Some(x))) + Seq::new(extra, |i: int| None::<T>));
    }
}

proof fn lemma_received_empty<T>(n: nat)
    ensures
        received(Seq::<T>::empty(), n) == Seq::new(n, |i: int| None::<T>),
    decreases n,
{
    if n > 0 {
        lemma_received_empty::<T>((n - 1) as nat);
        assert(after_recv(Seq::<T>::empty()) =~= Seq::<T>::empty());
        assert(seq![None::<T>] + Seq::new((n - 1) as nat, |i: int| None::<T>) =~= Seq::new(n, |i: int| None::<T>));
    }
}

proof fn lemma_sends_append<T>(items: Seq<T>, sent: Seq<T>)
    ensures
        after_sends(items, false, sent) == items + sent,
    decreases sent.len(),
{
    if sent.len() == 0 {
        assert(items + sent =~= items);
    } else {
        lemma_sends_append(items, sent.drop_last());
        assert((items + sent.drop_last()).push(sent.last()) =~= items + sent);
    }
}

proof fn lemma_receive_all<T>(items: Seq<T>)
    ensures
        received(items, items.len()) == items.map_values(|x: T| Some(x)),
    decreases items.len(),
{
    if items.len() == 0 {
        assert(items.map_values(|x: T| Some(x)) =~= Seq::<Option<T>>::empty());
    } else {
        let rest = items.drop_first();
        lemma_receive_all(rest);
        assert((items.len() - 1) as nat == rest.len());
        assert(items.map_values(|x: T| Some(x)) =~= seq![Some(items[0])] + rest.map_values(|x: T| Some(x)));
    }
}

} // verus!
