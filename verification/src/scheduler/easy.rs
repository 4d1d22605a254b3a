//! The bookkeeping of the easy scheduler: one channel per worker thread, a
//! count of the tasks handed to each, and dispatch to the least-loaded worker.
//!
//! The threads themselves, and the loops that block on their channels, are run
//! by the caller; the operations here decide what each step does. What each
//! sending end handed to its channel, and whether the channel accepted it, is
//! recorded by the channel calls themselves (see `channel`).

use vstd::prelude::*;
use crate::channel::{channel_recv, open_channel, outbox_send, receiving_end, sending_end, Deliveries, Inbox, Outbox};
use crate::scheduler::{Runnable, RunnableError, SchedulerAdapter};

verus! {

/// What travels to a worker: a task to run, or `None` to ask it to finish.
pub type Message = Option<Box<dyn Runnable>>;

/// A record that grew by one task message: the earlier messages stay, in
/// order, and a task follows them.
pub open spec fn one_more_task(before: Seq<Message>, after: Seq<Message>) -> bool {
    &&& after.len() == before.len() + 1
    &&& after.drop_last() == before
    &&& after.last() is Some
}

/// Appending `x` to `s` keeps `s` in front and ends with `x`.
proof fn lemma_push_last<T>(s: Seq<T>, x: T)
    ensures
        s.push(x).len() == s.len() + 1,
        s.push(x).drop_last() == s,
        s.push(x).last() == x,
        s.push(x)[s.len() as int] == x,
{
    assert(s.push(x).drop_last() =~= s);
}

/// Appending a task message to a record grows it by one task.
proof fn lemma_push_task(before: Seq<Message>, message: Message)
    requires
        message is Some,
    ensures
        one_more_task(before, before.push(message)),
{
    assert(before.push(message).drop_last() =~= before);
}

/// The scheduler's end of one worker's channel, with the number of tasks
/// handed to that worker so far.
pub struct WorkerAdapter {
    outbox: Outbox<Message>,
    tasks_count: usize,
}

impl WorkerAdapter {
    /// The number of tasks the worker's channel accepted.
    pub closed spec fn tasks(&self) -> usize {
        self.tasks_count
    }

    /// The label of the channel to the worker.
    pub closed spec fn channel(&self) -> int {
        self.outbox.channel()
    }

    /// The std sending end of the channel to the worker.
    pub closed spec fn sender(&self) -> std::sync::mpsc::Sender<Message> {
        self.outbox.sender()
    }

    /// The messages handed to the worker's channel, in order.
    pub closed spec fn offered(&self) -> Seq<Message> {
        self.outbox.offered()
    }

    /// For each message handed over, whether the channel accepted it.
    pub closed spec fn accepted(&self) -> Seq<bool> {
        self.outbox.accepted()
    }

    /// An adapter that sends through `sender` to a worker that has not been
    /// given anything yet.
    pub fn new(sender: std::sync::mpsc::Sender<Message>) -> (adapter: Self)
        ensures
            adapter.sender() == sender,
            adapter.tasks() == 0,
            adapter.offered() == Seq::<Message>::empty(),
            adapter.accepted() == Seq::<bool>::empty(),
    {
        WorkerAdapter { outbox: sending_end(sender), tasks_count: 0 }
    }

    /// Hands `runnable` to the worker's channel, after the earlier messages.
    /// When the channel accepts it (`true`), the task count grows by one;
    /// when the worker is gone (`false`), the task is dropped and the count
    /// stays.
    pub fn send(&mut self, runnable: Box<dyn Runnable>) -> (delivered: bool)
        requires
            old(self).tasks() < usize::MAX,
        ensures
            final(self).channel() == old(self).channel(),
            final(self).sender() == old(self).sender(),
            final(self).offered() == old(self).offered().push(Some(runnable)),
            one_more_task(old(self).offered(), final(self).offered()),
            final(self).accepted() == old(self).accepted().push(delivered),
            final(self).tasks() == if delivered { old(self).tasks() + 1 } else { old(self).tasks() as int },
    {
        self.hand_over(Some(runnable))
    }

    /// Hands a task message to the worker's channel, as `send` does.
    fn hand_over(&mut self, message: Message) -> (delivered: bool)
        requires
            old(self).tasks() < usize::MAX,
            message is Some,
        ensures
            final(self).channel() == old(self).channel(),
            final(self).sender() == old(self).sender(),
            final(self).offered() == old(self).offered().push(message),
            one_more_task(old(self).offered(), final(self).offered()),
            final(self).accepted() == old(self).accepted().push(delivered),
            final(self).tasks() == if delivered { old(self).tasks() + 1 } else { old(self).tasks() as int },
    {
        proof { lemma_push_task(old(self).offered(), message); }
        match outbox_send(&mut self.outbox, message) {
            Ok(()) => {
                self.tasks_count = self.tasks_count + 1;
                true
            },
            Err(_) => false,
        }
    }

    /// Hands the request to finish to the worker's channel, after the tasks it
    /// was given; `false` when the worker is already gone. The task count is
    /// unchanged.
    pub fn stop(&mut self) -> (delivered: bool)
        ensures
            final(self).channel() == old(self).channel(),
            final(self).sender() == old(self).sender(),
            final(self).offered() == old(self).offered().push(None),
            final(self).accepted() == old(self).accepted().push(delivered),
            final(self).tasks() == old(self).tasks(),
    {
        match outbox_send(&mut self.outbox, None) {
            Ok(()) => true,
            Err(_) => false,
        }
    }
}

/// What a worker did with one message.
pub enum WorkerStep {
    /// It ran a task, which gave this result.
    Ran(Result<(), RunnableError>),
    /// It was asked to finish, or its channel was closed.
    Finished,
}

/// A worker thread's end of its channel.
pub struct Worker {
    inbox: Inbox<Message>,
}

impl Worker {
    /// The label of the channel the worker takes its messages from.
    pub closed spec fn channel(&self) -> int {
        self.inbox.channel()
    }

    /// The std receiving end the worker takes its messages from.
    pub closed spec fn receiver(&self) -> std::sync::mpsc::Receiver<Message> {
        self.inbox.receiver()
    }

    /// What the worker's receives handed out, in order: a message, or `None`
    /// for a closed channel.
    pub closed spec fn received(&self) -> Seq<Option<Message>> {
        self.inbox.taken()
    }

    /// A worker that takes its messages from `receiver`.
    pub fn new(receiver: std::sync::mpsc::Receiver<Message>) -> (worker: Self)
        ensures
            worker.receiver() == receiver,
    {
        Worker { inbox: receiving_end(receiver) }
    }

    /// Handles what the channel delivered: `None` (the channel is closed) and
    /// `Some(None)` (a request to finish) end the worker; a task is run, and
    /// `Ran` carries what its run returned.
    pub fn execute(message: Option<Message>) -> (step: WorkerStep)
        ensures
            step is Ran <==> message matches Some(Some(_)),
            step matches WorkerStep::Ran(result) ==> message.unwrap().unwrap().runs_to(result),
    {
        match message {
            Some(Some(mut runnable)) => WorkerStep::Ran(runnable.run()),
            Some(None) => WorkerStep::Finished,
            None => WorkerStep::Finished,
        }
    }

    /// Waits for the next message and handles it as `execute` does.
    pub fn step(&mut self) -> (step: WorkerStep)
        ensures
            final(self).channel() == old(self).channel(),
            final(self).receiver() == old(self).receiver(),
            step matches WorkerStep::Ran(result) ==> exists|task: Message|
                task is Some && #[trigger] task.unwrap().runs_to(result),
            worker_stepped(old(self).received(), final(self).received(), step),
    {
        let message = self.inbox.recv();
        proof { lemma_push_last(old(self).received(), message); }
        Worker::execute(message)
    }
}

/// One worker step, with `before` and `after` the record of what the worker
/// received: one more message was received; a task was run, and `Ran`
/// carries what it returned; a request to finish or a closed channel gives
/// `Finished`.
pub open spec fn worker_stepped(before: Seq<Option<Message>>, after: Seq<Option<Message>>, step: WorkerStep) -> bool {
    &&& after.len() == before.len() + 1
    &&& after.drop_last() == before
    &&& (step is Ran <==> after.last() matches Some(Some(_)))
    &&& step matches WorkerStep::Ran(result) ==> after.last().unwrap().unwrap().runs_to(result)
}

/// A worker finishes only when asked to or when its channel is closed; on a
/// task, whatever that task gave (an error too), it reports it and goes on.
pub proof fn law_worker_finishes_only_on_request(before: Seq<Option<Message>>, after: Seq<Option<Message>>, step: WorkerStep)
    requires
        worker_stepped(before, after, step),
    ensures
        step is Finished ==> after[before.len() as int] is None || after[before.len() as int] == Some(None::<Box<dyn Runnable>>),
        after[before.len() as int] matches Some(Some(task)) ==> step matches WorkerStep::Ran(result) && task.runs_to(result),
{
}

/// The handle through which work reaches the scheduler thread.
pub struct EasySchedulerAdapter {
    outbox: Outbox<Message>,
}

impl EasySchedulerAdapter {
    /// The std sending end of the scheduler's channel.
    pub closed spec fn sender(&self) -> std::sync::mpsc::Sender<Message> {
        self.outbox.sender()
    }

    /// The messages handed to the scheduler's channel, in order.
    pub closed spec fn offered(&self) -> Seq<Message> {
        self.outbox.offered()
    }

    /// For each message handed over, whether the channel accepted it.
    pub closed spec fn accepted(&self) -> Seq<bool> {
        self.outbox.accepted()
    }

    /// A handle that passes work through `sender`; it sends nothing yet.
    pub fn new(sender: std::sync::mpsc::Sender<Message>) -> (adapter: Self)
        ensures
            adapter.sender() == sender,
            adapter.offered() == Seq::<Message>::empty(),
            adapter.accepted() == Seq::<bool>::empty(),
    {
        EasySchedulerAdapter { outbox: sending_end(sender) }
    }

    /// Hands a task message to the scheduler's channel, as `schedule` does.
    fn submit(&mut self, message: Message) -> (delivered: bool)
        requires
            message is Some,
        ensures
            final(self).sender() == old(self).sender(),
            final(self).offered() == old(self).offered().push(message),
            one_more_task(old(self).offered(), final(self).offered()),
            final(self).accepted() == old(self).accepted().push(delivered),
    {
        proof { lemma_push_task(old(self).offered(), message); }
        match outbox_send(&mut self.outbox, message) {
            Ok(()) => true,
            Err(_) => false,
        }
    }
}

impl SchedulerAdapter for EasySchedulerAdapter {
    /// Hands `runnable` to the scheduler's channel, after the earlier
    /// messages; `false` when the scheduler is gone, and the task is dropped.
    fn schedule(&mut self, runnable: Box<dyn Runnable>) -> (delivered: bool)
        ensures
            final(self).sender() == old(self).sender(),
            final(self).offered() == old(self).offered().push(Some(runnable)),
            one_more_task(old(self).offered(), final(self).offered()),
            final(self).accepted() == old(self).accepted().push(delivered),
    {
        self.submit(Some(runnable))
    }


    /// Hands the request to stop to the scheduler's channel, after the earlier
    /// messages; `false` when the scheduler is gone.
    fn stop(&mut self) -> (delivered: bool)
        ensures
            final(self).sender() == old(self).sender(),
            final(self).offered() == old(self).offered().push(None),
            final(self).accepted() == old(self).accepted().push(delivered),
    {
        match outbox_send(&mut self.outbox, None) {
            Ok(()) => true,
            Err(_) => false,
        }
    }
}

/// A worker is among the least loaded: no worker has fewer tasks.
pub open spec fn is_least_loaded(loads: Seq<usize>, i: int) -> bool {
    &&& 0 <= i < loads.len()
    &&& forall|j: int| 0 <= j < loads.len() ==> loads[i] <= #[trigger] loads[j]
}

/// The task counts differ by at most one.
pub open spec fn balanced(loads: Seq<usize>) -> bool {
    forall|i: int, j: int| 0 <= i < loads.len() && 0 <= j < loads.len() ==> #[trigger] loads[i] <= #[trigger] loads[j] + 1
}

/// The number of tasks handed out over all workers.
pub open spec fn total(loads: Seq<usize>) -> int
    decreases loads.len(),
{
    if loads.len() == 0 {
        0
    } else {
        total(loads.drop_last()) + loads.last()
    }
}

/// Whether another task can be counted: there is no worker, or some worker's
/// count is below the largest `usize`.
pub open spec fn can_count_another(loads: Seq<usize>) -> bool {
    loads.len() == 0 || exists|i: int| 0 <= i < loads.len() && #[trigger] loads[i] < usize::MAX
}

/// The task counts after one more task went to worker `i`.
pub open spec fn one_more(loads: Seq<usize>, i: int) -> Seq<usize> {
    loads.update(i, (loads[i] + 1) as usize)
}

/// The task counts of `count` workers that were given nothing yet.
pub open spec fn fresh_loads(count: nat) -> Seq<usize> {
    Seq::new(count, |i: int| 0usize)
}

/// The task counts after one task went to each worker of `picks`, in turn.
pub open spec fn after_dispatches(loads: Seq<usize>, picks: Seq<int>) -> Seq<usize>
    decreases picks.len(),
{
    if picks.len() == 0 {
        loads
    } else {
        one_more(after_dispatches(loads, picks.drop_last()), picks.last())
    }
}

/// Each worker of `picks` was a least-loaded one when its task went to it.
pub open spec fn least_loaded_picks(loads: Seq<usize>, picks: Seq<int>) -> bool
    decreases picks.len(),
{
    picks.len() == 0 || {
        &&& least_loaded_picks(loads, picks.drop_last())
        &&& is_least_loaded(after_dispatches(loads, picks.drop_last()), picks.last())
    }
}

/// Where a task went.
pub enum Dispatch {
    /// To the worker at this index, a least-loaded one.
    Sent(usize),
    /// Nowhere: there are no workers.
    NoWorkers,
    /// The least-loaded worker at this index is gone; the task is lost.
    Undelivered(usize),
}

/// What the scheduler did with one message from its channel.
pub enum SchedulerStep {
    /// It was a task, and went as said.
    Dispatched(Dispatch),
    /// It was the request to stop, or the channel was closed.
    Stop,
}

/// The scheduler's workers, each with the number of tasks it was given.
pub struct WorkerAdapters {
    adapters: Vec<WorkerAdapter>,
    served: Deliveries<Message>,
}

/// The records after the task message `message` was handed to worker `i`
/// alone: its record gains the message at the end, the others stay.
pub open spec fn handed_to(before: Seq<Seq<Message>>, after: Seq<Seq<Message>>, i: int, message: Message) -> bool {
    &&& after.len() == before.len()
    &&& after[i] == before[i].push(message)
    &&& one_more_task(before[i], after[i])
    &&& forall|k: int| 0 <= k < before.len() && k != i ==> #[trigger] after[k] == before[k]
}

/// The workers are as they were: counts, channels and records.
pub open spec fn same_workers(before: WorkerAdapters, after: WorkerAdapters) -> bool {
    &&& after.loads() == before.loads()
    &&& after.channels() == before.channels()
    &&& after.records() == before.records()
    &&& after.answers() == before.answers()
}

/// One scheduler step, from `before` to `after`, answered with `step`: the
/// message received joins the record; a task is dispatched (as `dispatched`
/// says); a request to stop or a closed channel gives `Stop` and leaves the
/// workers as they were.
pub open spec fn served(before: WorkerAdapters, after: WorkerAdapters, step: SchedulerStep) -> bool {
    &&& after.received().len() == before.received().len() + 1
    &&& after.received().drop_last() == before.received()
    &&& match after.received().last() {
        Some(Some(_)) => step matches SchedulerStep::Dispatched(outcome)
            && dispatched(before, after, after.received().last().unwrap(), outcome),
        _ => step is Stop && same_workers(before, after),
    }
}

/// A dispatch depends only on the workers, not on what was received.
proof fn lemma_dispatched_from_same(
    start: WorkerAdapters,
    middle: WorkerAdapters,
    after: WorkerAdapters,
    task: Message,
    outcome: Dispatch,
)
    requires
        same_workers(start, middle),
        dispatched(middle, after, task, outcome),
    ensures
        dispatched(start, after, task, outcome),
{
}

/// One dispatch of the message `task` over the workers, from `before` to
/// `after`, with this `outcome`. Every worker keeps its channel. When there is a
/// worker, the task is handed to the channel of a least-loaded one, after its
/// earlier messages; `Sent` when that channel accepted it (the worker's count
/// grows by one), `Undelivered` when it did not (the counts stay). With no
/// worker nothing changes.
pub open spec fn dispatched(before: WorkerAdapters, after: WorkerAdapters, task: Message, outcome: Dispatch) -> bool {
    &&& after.channels() == before.channels()
    &&& match outcome {
        Dispatch::Sent(i) => {
            &&& is_least_loaded(before.loads(), i as int)
            &&& before.loads()[i as int] < usize::MAX
            &&& after.loads() == one_more(before.loads(), i as int)
            &&& handed_to(before.records(), after.records(), i as int, task)
            &&& after.answers() == before.answers().update(i as int, before.answers()[i as int].push(true))
        },
        Dispatch::NoWorkers => {
            &&& before.loads().len() == 0
            &&& after.loads() == before.loads()
            &&& after.records() == before.records()
            &&& after.answers() == before.answers()
        },
        Dispatch::Undelivered(i) => {
            &&& is_least_loaded(before.loads(), i as int)
            &&& after.loads() == before.loads()
            &&& handed_to(before.records(), after.records(), i as int, task)
            &&& after.answers() == before.answers().update(i as int, before.answers()[i as int].push(false))
        },
    }
}

impl WorkerAdapters {
    /// What the receives on the scheduler's channel handed out, in order.
    pub closed spec fn received(&self) -> Seq<Option<Message>> {
        self.served.taken()
    }

    /// The task count of each worker, in the order the workers were added.
    pub closed spec fn loads(&self) -> Seq<usize> {
        Seq::new(self.adapters@.len(), |i: int| self.adapters@[i].tasks())
    }

    /// The label of each worker's channel.
    pub closed spec fn channels(&self) -> Seq<int> {
        Seq::new(self.adapters@.len(), |i: int| self.adapters@[i].channel())
    }

    /// The messages handed to each worker's channel.
    pub closed spec fn records(&self) -> Seq<Seq<Message>> {
        Seq::new(self.adapters@.len(), |i: int| self.adapters@[i].offered())
    }

    /// For each worker, whether its channel accepted each message.
    pub closed spec fn answers(&self) -> Seq<Seq<bool>> {
        Seq::new(self.adapters@.len(), |i: int| self.adapters@[i].accepted())
    }

    /// No workers.
    pub fn new() -> (pool: Self)
        ensures
            pool.loads() == Seq::<usize>::empty(),
            pool.channels() == Seq::<int>::empty(),
            pool.records() == Seq::<Seq<Message>>::empty(),
            pool.answers() == Seq::<Seq<bool>>::empty(),
            pool.received() == Seq::<Option<Message>>::empty(),
    {
        WorkerAdapters { adapters: Vec::new(), served: Deliveries::new() }
    }

    /// `count` workers, each on a channel of its own, none given anything yet,
    /// and the worker ends of their channels: worker `k` reads the channel of
    /// adapter `k`.
    pub fn with_workers(count: usize) -> (result: (Self, Vec<Worker>))
        ensures
            result.0.loads() == fresh_loads(count as nat),
            result.0.records() == Seq::new(count as nat, |i: int| Seq::<Message>::empty()),
            result.0.answers() == Seq::new(count as nat, |i: int| Seq::<bool>::empty()),
            result.1@.len() == count,
            forall|k: int| 0 <= k < count ==> #[trigger] result.1@[k].channel() == result.0.channels()[k],
            forall|k: int| 0 <= k < count ==> #[trigger] result.1@[k].received() == Seq::<Option<Message>>::empty(),
            result.0.received() == Seq::<Option<Message>>::empty(),
    {
        let mut pool = WorkerAdapters::new();
        let mut workers: Vec<Worker> = Vec::new();
        let mut k: usize = 0;
        while k < count
            invariant
                k <= count,
                pool.loads() == fresh_loads(k as nat),
                pool.records() == Seq::new(k as nat, |i: int| Seq::<Message>::empty()),
                pool.answers() == Seq::new(k as nat, |i: int| Seq::<bool>::empty()),
                workers@.len() == k,
                pool.channels().len() == k,
                forall|j: int| 0 <= j < k ==> #[trigger] workers@[j].channel() == pool.channels()[j],
                forall|j: int| 0 <= j < k ==> #[trigger] workers@[j].received() == Seq::<Option<Message>>::empty(),
                pool.received() == Seq::<Option<Message>>::empty(),
            decreases count - k,
        {
            let (outbox, inbox) = open_channel();
            pool.push(WorkerAdapter { outbox, tasks_count: 0 });
            workers.push(Worker { inbox });
            k = k + 1;
            assert(pool.loads() =~= fresh_loads(k as nat));
            assert(pool.records() =~= Seq::new(k as nat, |i: int| Seq::<Message>::empty()));
            assert(pool.answers() =~= Seq::new(k as nat, |i: int| Seq::<bool>::empty()));
        }
        (pool, workers)
    }

    /// Adds a worker.
    pub fn push(&mut self, adapter: WorkerAdapter)
        ensures
            final(self).loads() == old(self).loads().push(adapter.tasks()),
            final(self).channels() == old(self).channels().push(adapter.channel()),
            final(self).records() == old(self).records().push(adapter.offered()),
            final(self).answers() == old(self).answers().push(adapter.accepted()),
            final(self).received() == old(self).received(),
    {
        self.adapters.push(adapter);
        assert(self.loads() =~= old(self).loads().push(adapter.tasks()));
        assert(self.channels() =~= old(self).channels().push(adapter.channel()));
        assert(self.records() =~= old(self).records().push(adapter.offered()));
        assert(self.answers() =~= old(self).answers().push(adapter.accepted()));
    }

    /// The number of workers.
    pub fn len(&self) -> (n: usize)
        ensures
            n == self.loads().len(),
    {
        self.adapters.len()
    }

    /// The task count of the worker at `index`.
    pub fn load(&self, index: usize) -> (tasks: usize)
        requires
            index < self.loads().len(),
        ensures
            tasks == self.loads()[index as int],
    {
        self.adapters[index].tasks_count
    }

    /// Whether `dispatch` can count one more task without overflow.
    pub fn can_count_another(&self) -> (ok: bool)
        ensures
            ok == can_count_another(self.loads()),
    {
        let n = self.adapters.len();
        let mut i: usize = 0;
        while i < n
            invariant
                n == self.adapters@.len(),
                i <= n,
                forall|j: int| 0 <= j < i ==> #[trigger] self.loads()[j] == usize::MAX,
            decreases n - i,
        {
            if self.adapters[i].tasks_count < usize::MAX {
                assert(self.loads()[i as int] < usize::MAX);
                return true;
            }
            i = i + 1;
        }
        proof {
            if n > 0 {
                assert forall|j: int| 0 <= j < self.loads().len() implies !(self.loads()[j] < usize::MAX) by {
                    assert(self.loads()[j] == usize::MAX);
                }
            }
        }
        n == 0
    }

    /// The index of the first worker with the fewest tasks, if there is any worker.
    fn least_loaded(&self) -> (index: Option<usize>)
        ensures
            match index {
                Some(i) => is_least_loaded(self.loads(), i as int),
                None => self.loads().len() == 0,
            },
    {
        let n = self.adapters.len();
        if n == 0 {
            return None;
        }
        let mut best: usize = 0;
        let mut i: usize = 1;
        while i < n
            invariant
                n == self.adapters@.len(),
                1 <= i <= n,
                best < i,
                forall|j: int| 0 <= j < i ==> self.loads()[best as int] <= #[trigger] self.loads()[j],
            decreases n - i,
        {
            if self.adapters[i].tasks_count < self.adapters[best].tasks_count {
                best = i;
            }
            i = i + 1;
        }
        Some(best)
    }

    /// Hands `runnable` to a least-loaded worker and counts it there.
    pub fn dispatch(&mut self, runnable: Box<dyn Runnable>) -> (outcome: Dispatch)
        requires
            can_count_another(old(self).loads()),
        ensures
            dispatched(*old(self), *final(self), Some(runnable), outcome),
            final(self).received() == old(self).received(),
    {
        self.dispatch_task(Some(runnable))
    }

    /// Dispatches a task message, as `dispatch` does.
    fn dispatch_task(&mut self, task: Message) -> (outcome: Dispatch)
        requires
            can_count_another(old(self).loads()),
            task is Some,
        ensures
            dispatched(*old(self), *final(self), task, outcome),
            final(self).received() == old(self).received(),
    {
        match self.least_loaded() {
            None => Dispatch::NoWorkers,
            Some(i) => {
                proof {
                    let loads = self.loads();
                    let k = choose|k: int| 0 <= k < loads.len() && #[trigger] loads[k] < usize::MAX;
                    assert(loads[i as int] <= loads[k]);
                }
                let delivered = self.adapters[i].hand_over(task);
                assert(self.channels() =~= old(self).channels());
                assert(self.records()[i as int] == self.adapters@[i as int].offered());
                assert forall|k: int| 0 <= k < self.records().len() && k != i implies #[trigger] self.records()[k] == old(self).records()[k] by {
                    assert(self.records()[k] == self.adapters@[k].offered());
                }
                assert(self.answers() =~= old(self).answers().update(i as int, old(self).answers()[i as int].push(delivered)));
                if delivered {
                    assert(self.loads() =~= one_more(old(self).loads(), i as int));
                    Dispatch::Sent(i)
                } else {
                    assert(self.loads() =~= old(self).loads());
                    Dispatch::Undelivered(i)
                }
            },
        }
    }

    /// Handles one message from the scheduler's channel: a task is dispatched;
    /// the request to stop, or a closed channel (`None`), leaves everything
    /// as it is.
    pub fn handle(&mut self, message: Option<Message>) -> (step: SchedulerStep)
        requires
            can_count_another(old(self).loads()),
        ensures
            message matches Some(Some(_)) ==> step matches SchedulerStep::Dispatched(outcome)
                && dispatched(*old(self), *final(self), message.unwrap(), outcome),
            !(message matches Some(Some(_))) ==> step is Stop && *final(self) == *old(self),
            final(self).received() == old(self).received(),
    {
        let is_task = match &message {
            Some(Some(_)) => true,
            _ => false,
        };
        if is_task {
            SchedulerStep::Dispatched(self.dispatch_task(message.unwrap()))
        } else {
            SchedulerStep::Stop
        }
    }

    /// Waits for the next message on the scheduler's channel and handles it
    /// as `handle` does.
    pub fn serve_next(&mut self, receiver: &std::sync::mpsc::Receiver<Message>) -> (step: SchedulerStep)
        requires
            can_count_another(old(self).loads()),
        ensures
            match step {
                SchedulerStep::Dispatched(outcome) => exists|task: Message| task is Some && #[trigger] dispatched(*old(self), *final(self), task, outcome),
                SchedulerStep::Stop => same_workers(*old(self), *final(self)),
            },
            served(*old(self), *final(self), step),
    {
        let ghost start = *self;
        let message = channel_recv(receiver, &mut self.served);
        proof {
            lemma_push_last(start.received(), message);
            assert(self.loads() == start.loads());
            assert(self.channels() == start.channels());
            assert(self.records() == start.records());
            assert(self.answers() == start.answers());
        }
        let ghost middle = *self;
        let step = self.handle(message);
        proof {
            if step is Dispatched {
                lemma_dispatched_from_same(start, middle, *self, message.unwrap(), step->Dispatched_0);
            }
        }
        step
    }

    /// Hands the request to finish to every worker's channel, in order, after
    /// the tasks each was given. It stops at the first worker whose channel
    /// refused it and reports its index; the workers after it were not asked.
    /// Counts and channels stay.
    pub fn stop_all(&mut self) -> (result: Result<(), usize>)
        ensures
            final(self).loads() == old(self).loads(),
            final(self).channels() == old(self).channels(),
            final(self).received() == old(self).received(),
            final(self).records().len() == old(self).records().len(),
            final(self).answers().len() == old(self).answers().len(),
            match result {
                Ok(()) => forall|k: int| 0 <= k < old(self).records().len() ==> {
                    &&& #[trigger] final(self).records()[k] == old(self).records()[k].push(None)
                    &&& final(self).answers()[k] == old(self).answers()[k].push(true)
                },
                Err(i) => {
                    &&& i < old(self).records().len()
                    &&& forall|k: int| 0 <= k < i ==> {
                        &&& #[trigger] final(self).records()[k] == old(self).records()[k].push(None)
                        &&& final(self).answers()[k] == old(self).answers()[k].push(true)
                    }
                    &&& final(self).records()[i as int] == old(self).records()[i as int].push(None)
                    &&& final(self).answers()[i as int] == old(self).answers()[i as int].push(false)
                    &&& forall|k: int| i < k < old(self).records().len() ==> {
                        &&& #[trigger] final(self).records()[k] == old(self).records()[k]
                        &&& final(self).answers()[k] == old(self).answers()[k]
                    }
                },
            },
    {
        let n = self.adapters.len();
        let mut i: usize = 0;
        while i < n
            invariant
                n == self.adapters@.len(),
                n == old(self).adapters@.len(),
                i <= n,
                self.loads() == old(self).loads(),
                self.channels() == old(self).channels(),
                self.received() == old(self).received(),
                forall|k: int| 0 <= k < i ==> {
                    &&& #[trigger] self.records()[k] == old(self).records()[k].push(None)
                    &&& self.answers()[k] == old(self).answers()[k].push(true)
                },
                forall|k: int| i <= k < n ==> {
                    &&& #[trigger] self.records()[k] == old(self).records()[k]
                    &&& self.answers()[k] == old(self).answers()[k]
                },
            decreases n - i,
        {
            let ghost before = *self;
            let ghost prev = self.adapters@[i as int];
            let delivered = self.adapters[i].stop();
            proof {
                assert(self.loads() =~= old(self).loads());
                assert(self.channels() =~= old(self).channels());
                assert forall|k: int| 0 <= k < n && k != i implies {
                    &&& #[trigger] self.records()[k] == before.records()[k]
                    &&& self.answers()[k] == before.answers()[k]
                } by {
                    assert(self.records()[k] == self.adapters@[k].offered());
                    assert(before.records()[k] == before.adapters@[k].offered());
                    assert(self.answers()[k] == self.adapters@[k].accepted());
                    assert(before.answers()[k] == before.adapters@[k].accepted());
                }
                assert(self.records()[i as int] == self.adapters@[i as int].offered());
                assert(self.answers()[i as int] == self.adapters@[i as int].accepted());
                assert(before.records()[i as int] == prev.offered());
                assert(before.answers()[i as int] == prev.accepted());
            }
            if !delivered {
                return Err(i);
            }
            assert forall|k: int| i < k < n implies {
                &&& #[trigger] self.records()[k] == old(self).records()[k]
                &&& self.answers()[k] == old(self).answers()[k]
            } by {
                assert(self.records()[k] == before.records()[k]);
                assert(before.records()[k] == old(self).records()[k]);
            }
            i = i + 1;
        }
        Ok(())
    }
}

/// Sending a task to a least-loaded worker keeps the workers balanced: if
/// their task counts differed by at most one before, they still do.
pub proof fn law_dispatch_keeps_balance(loads: Seq<usize>, i: int)
    requires
        balanced(loads),
        is_least_loaded(loads, i),
        loads[i] < usize::MAX,
    ensures
        balanced(one_more(loads, i)),
{
    let after = one_more(loads, i);
    assert forall|a: int, b: int| 0 <= a < after.len() && 0 <= b < after.len() implies #[trigger] after[a] <= #[trigger] after[b] + 1 by {
        assert(loads[a] <= loads[b] + 1);
        assert(loads[i] <= loads[b]);
    }
}

/// Every dispatched task is counted exactly once: the total over all workers
/// grows by one.
pub proof fn law_dispatch_counts_one_task(loads: Seq<usize>, i: int)
    requires
        0 <= i < loads.len(),
        loads[i] < usize::MAX,
    ensures
        total(one_more(loads, i)) == total(loads) + 1,
{
    lemma_total_update(loads, i, (loads[i] + 1) as usize);
}

/// Workers that were just added, with no task yet, are balanced and have
/// been given nothing.
pub proof fn law_fresh_workers_balanced(loads: Seq<usize>)
    requires
        forall|i: int| 0 <= i < loads.len() ==> #[trigger] loads[i] == 0,
    ensures
        balanced(loads),
        total(loads) == 0,
    decreases loads.len(),
{
    if loads.len() > 0 {
        law_fresh_workers_balanced(loads.drop_last());
    }
}

/// Replacing one count changes the total by the difference.
proof fn lemma_total_update(loads: Seq<usize>, i: int, v: usize)
    requires
        0 <= i < loads.len(),
    ensures
        total(loads.update(i, v)) == total(loads) - loads[i] + v,
    decreases loads.len(),
{
    let after = loads.update(i, v);
    if i == loads.len() - 1 {
        assert(after.drop_last() =~= loads.drop_last());
    } else {
        lemma_total_update(loads.drop_last(), i, v);
        assert(after.drop_last() =~= loads.drop_last().update(i, v));
    }
}

/// Over a whole run: when tasks go one by one to least-loaded workers,
/// starting from workers that were given nothing, every worker has been given
/// the same number of tasks or one more, and all the tasks are counted.
pub proof fn law_run_stays_balanced(count: nat, picks: Seq<int>)
    requires
        picks.len() < usize::MAX,
        least_loaded_picks(fresh_loads(count), picks),
    ensures
        after_dispatches(fresh_loads(count), picks).len() == count,
        balanced(after_dispatches(fresh_loads(count), picks)),
        total(after_dispatches(fresh_loads(count), picks)) == picks.len(),
    decreases picks.len(),
{
    if picks.len() == 0 {
        law_fresh_workers_balanced(fresh_loads(count));
    } else {
        let earlier = picks.drop_last();
        law_run_stays_balanced(count, earlier);
        let loads = after_dispatches(fresh_loads(count), earlier);
        let i = picks.last();
        lemma_load_at_most_total(loads, i);
        law_dispatch_keeps_balance(loads, i);
        law_dispatch_counts_one_task(loads, i);
    }
}

/// No worker was given more tasks than all workers together.
proof fn lemma_load_at_most_total(loads: Seq<usize>, i: int)
    requires
        0 <= i < loads.len(),
    ensures
        loads[i] <= total(loads),
    decreases loads.len(),
{
    lemma_total_nonnegative(loads.drop_last());
    if i < loads.len() - 1 {
        lemma_load_at_most_total(loads.drop_last(), i);
    }
}

proof fn lemma_total_nonnegative(loads: Seq<usize>)
    ensures
        total(loads) >= 0,
    decreases loads.len(),
{
    if loads.len() > 0 {
        lemma_total_nonnegative(loads.drop_last());
    }
}

/// Every task goes to a worker with the fewest tasks of all workers, and
/// only that worker's count can grow, by one; with no worker the task goes
/// nowhere.
pub proof fn law_dispatch_goes_to_least_loaded(
    before: WorkerAdapters,
    after: WorkerAdapters,
    task: Message,
    outcome: Dispatch,
)
    requires
        dispatched(before, after, task, outcome),
    ensures
        outcome is NoWorkers <==> before.loads().len() == 0,
        outcome matches Dispatch::Sent(i) ==> {
            &&& i < before.loads().len()
            &&& forall|j: int| 0 <= j < before.loads().len() ==> before.loads()[i as int] <= #[trigger] before.loads()[j]
            &&& after.loads()[i as int] == before.loads()[i as int] + 1
            &&& forall|j: int| 0 <= j < before.loads().len() && j != i ==> #[trigger] after.loads()[j] == before.loads()[j]
        },
        outcome matches Dispatch::Undelivered(i) ==> {
            &&& i < before.loads().len()
            &&& forall|j: int| 0 <= j < before.loads().len() ==> before.loads()[i as int] <= #[trigger] before.loads()[j]
            &&& after.loads() == before.loads()
        },
{
    match outcome {
        Dispatch::Sent(i) => {
            let k = i as int;
            assert forall|j: int| 0 <= j < before.loads().len() implies before.loads()[k] <= #[trigger] before.loads()[j] by {
            }
        },
        _ => {},
    }
}

/// The scheduler stops only on a request to stop or a closed channel: a task
/// it receives is always dispatched, and when there is a worker it is handed
/// to one of them.
pub proof fn law_scheduler_stops_only_on_request(before: WorkerAdapters, after: WorkerAdapters, step: SchedulerStep)
    requires
        served(before, after, step),
    ensures
        after.received().len() == before.received().len() + 1,
        step is Stop ==> {
            ||| after.received()[before.received().len() as int] is None
            ||| after.received()[before.received().len() as int] == Some(None::<Box<dyn Runnable>>)
        },
        after.received()[before.received().len() as int] matches Some(Some(_)) ==> step is Dispatched,
        step is Dispatched && before.loads().len() > 0 ==> {
            ||| step->Dispatched_0 matches Dispatch::Sent(i) && after.records()[i as int].len() == before.records()[i as int].len() + 1
            ||| step->Dispatched_0 matches Dispatch::Undelivered(i) && after.records()[i as int].len() == before.records()[i as int].len() + 1
        },
{
    lemma_push_last(before.received(), after.received().last());
    assert(after.received() =~= before.received().push(after.received().last()));
}

} // verus!
