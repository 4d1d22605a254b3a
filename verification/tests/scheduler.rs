use executors::scheduler::easy::{
    Dispatch, EasySchedulerAdapter, Message, SchedulerStep, Worker, WorkerAdapter, WorkerAdapters,
    WorkerStep,
};
use executors::scheduler::{Runnable, RunnableError, RunnableWrapper, SchedulerAdapter};
use std::sync::atomic::{AtomicUsize, Ordering};
use std::sync::mpsc;
use std::sync::Arc;

struct Counting {
    runs: Arc<AtomicUsize>,
}

impl Runnable for Counting {
    fn run(&mut self) -> Result<(), RunnableError> {
        self.runs.fetch_add(1, Ordering::SeqCst);
        Ok(())
    }
}

struct Failing;

impl Runnable for Failing {
    fn run(&mut self) -> Result<(), RunnableError> {
        Err(RunnableError { message: "broken".to_string() })
    }
}

fn pool(n: usize) -> (WorkerAdapters, Vec<mpsc::Receiver<Message>>) {
    let mut adapters = WorkerAdapters::new();
    let mut receivers = Vec::new();
    for _ in 0..n {
        let (sender, receiver) = mpsc::channel();
        adapters.push(WorkerAdapter::new(sender));
        receivers.push(receiver);
    }
    (adapters, receivers)
}

fn task(runs: &Arc<AtomicUsize>) -> Box<dyn Runnable> {
    Box::new(Counting { runs: Arc::clone(runs) })
}

#[test]
fn dispatch_goes_to_the_least_loaded_worker() {
    let runs = Arc::new(AtomicUsize::new(0));
    let (mut adapters, receivers) = pool(3);
    for expected in [0usize, 1, 2, 0, 1, 2, 0] {
        assert!(adapters.can_count_another());
        match adapters.dispatch(task(&runs)) {
            Dispatch::Sent(i) => assert_eq!(i, expected),
            _ => panic!("task was not sent"),
        }
    }
    assert_eq!(adapters.load(0), 3);
    assert_eq!(adapters.load(1), 2);
    assert_eq!(adapters.load(2), 2);
    let total: usize = (0..adapters.len()).map(|i| adapters.load(i)).sum();
    assert_eq!(total, 7);
    for (i, receiver) in receivers.iter().enumerate() {
        let mut received = 0;
        while let Ok(message) = receiver.try_recv() {
            assert!(message.is_some());
            received += 1;
        }
        assert_eq!(received, adapters.load(i));
    }
}

#[test]
fn dispatch_without_workers_reports_it() {
    let runs = Arc::new(AtomicUsize::new(0));
    let mut adapters = WorkerAdapters::new();
    assert_eq!(adapters.len(), 0);
    assert!(adapters.can_count_another());
    assert!(matches!(adapters.dispatch(task(&runs)), Dispatch::NoWorkers));
}

#[test]
fn dispatch_to_a_gone_worker_is_undelivered_and_not_counted() {
    let runs = Arc::new(AtomicUsize::new(0));
    let (mut adapters, receivers) = pool(1);
    drop(receivers);
    assert!(matches!(adapters.dispatch(task(&runs)), Dispatch::Undelivered(0)));
    assert_eq!(adapters.load(0), 0);
}

#[test]
fn stop_all_asks_every_worker_to_finish() {
    let (mut adapters, receivers) = pool(2);
    assert_eq!(adapters.stop_all(), Ok(()));
    assert_eq!(adapters.len(), 2);
    for receiver in receivers {
        assert!(matches!(receiver.try_recv(), Ok(None)));
    }
}

#[test]
fn stop_all_reports_a_gone_worker() {
    let (mut adapters, mut receivers) = pool(3);
    receivers.remove(1);
    assert_eq!(adapters.stop_all(), Err(1));
    assert!(matches!(receivers[0].try_recv(), Ok(None)));
    assert!(receivers[1].try_recv().is_err());
}

#[test]
fn with_workers_gives_each_worker_its_own_channel() {
    let runs = Arc::new(AtomicUsize::new(0));
    let (mut adapters, mut workers) = WorkerAdapters::with_workers(4);
    assert_eq!(adapters.len(), 4);
    assert_eq!(workers.len(), 4);
    for i in 0..4 {
        assert_eq!(adapters.load(i), 0);
    }
    for expected in 0..4 {
        assert!(matches!(adapters.dispatch(task(&runs)), Dispatch::Sent(i) if i == expected));
        assert!(matches!(workers[expected].step(), WorkerStep::Ran(Ok(()))));
        assert_eq!(runs.load(Ordering::SeqCst), expected + 1);
    }
    assert_eq!(adapters.stop_all(), Ok(()));
    for worker in workers.iter_mut() {
        assert!(matches!(worker.step(), WorkerStep::Finished));
    }
}

#[test]
fn a_long_run_stays_balanced() {
    let runs = Arc::new(AtomicUsize::new(0));
    let (mut adapters, _workers) = WorkerAdapters::with_workers(3);
    for _ in 0..100 {
        assert!(matches!(adapters.dispatch(task(&runs)), Dispatch::Sent(_)));
    }
    let loads: Vec<usize> = (0..3).map(|i| adapters.load(i)).collect();
    assert_eq!(loads.iter().sum::<usize>(), 100);
    assert!(loads.iter().max().unwrap() - loads.iter().min().unwrap() <= 1);
}

#[test]
fn handle_dispatches_tasks_and_stops_on_request_or_closed_channel() {
    let runs = Arc::new(AtomicUsize::new(0));
    let (mut adapters, receivers) = pool(2);
    assert!(matches!(
        adapters.handle(Some(Some(task(&runs)))),
        SchedulerStep::Dispatched(Dispatch::Sent(0))
    ));
    assert!(matches!(adapters.handle(Some(None)), SchedulerStep::Stop));
    assert!(matches!(adapters.handle(None), SchedulerStep::Stop));
    assert_eq!(adapters.load(0), 1);
    assert_eq!(adapters.load(1), 0);
    assert!(matches!(receivers[0].try_recv(), Ok(Some(_))));
}

#[test]
fn serve_next_takes_messages_from_the_scheduler_channel() {
    let runs = Arc::new(AtomicUsize::new(0));
    let (mut adapters, receivers) = pool(2);
    let (sender, inbox) = mpsc::channel::<Message>();
    sender.send(Some(task(&runs))).unwrap();
    sender.send(Some(task(&runs))).unwrap();
    sender.send(None).unwrap();
    assert!(matches!(adapters.serve_next(&inbox), SchedulerStep::Dispatched(Dispatch::Sent(0))));
    assert!(matches!(adapters.serve_next(&inbox), SchedulerStep::Dispatched(Dispatch::Sent(1))));
    assert!(matches!(adapters.serve_next(&inbox), SchedulerStep::Stop));
    drop(sender);
    assert!(matches!(adapters.serve_next(&inbox), SchedulerStep::Stop));
    for receiver in &receivers {
        assert!(matches!(receiver.try_recv(), Ok(Some(_))));
    }
}

#[test]
fn dispatch_without_workers_leaves_nothing_behind() {
    let runs = Arc::new(AtomicUsize::new(0));
    let (mut adapters, workers) = WorkerAdapters::with_workers(0);
    assert!(workers.is_empty());
    assert!(matches!(adapters.handle(Some(Some(task(&runs)))), SchedulerStep::Dispatched(Dispatch::NoWorkers)));
}

#[test]
fn worker_adapter_counts_delivered_tasks() {
    let runs = Arc::new(AtomicUsize::new(0));
    let (sender, receiver) = mpsc::channel();
    let mut adapter = WorkerAdapter::new(sender);
    assert!(adapter.send(task(&runs)));
    assert!(adapter.stop());
    assert!(matches!(receiver.try_recv(), Ok(Some(_))));
    assert!(matches!(receiver.try_recv(), Ok(None)));
}

#[test]
fn worker_runs_tasks_until_asked_to_finish() {
    let runs = Arc::new(AtomicUsize::new(0));
    let (sender, receiver) = mpsc::channel();
    let mut worker = Worker::new(receiver);
    sender.send(Some(task(&runs))).unwrap();
    sender.send(Some(Box::new(Failing) as Box<dyn Runnable>)).unwrap();
    sender.send(None).unwrap();
    assert!(matches!(worker.step(), WorkerStep::Ran(Ok(()))));
    match worker.step() {
        WorkerStep::Ran(Err(e)) => assert_eq!(e.describe(), "RunnableError: broken"),
        _ => panic!("expected a failed task"),
    }
    assert!(matches!(worker.step(), WorkerStep::Finished));
    assert_eq!(runs.load(Ordering::SeqCst), 1);
    drop(sender);
    assert!(matches!(worker.step(), WorkerStep::Finished));
}

#[test]
fn worker_execute_decides_by_message() {
    let runs = Arc::new(AtomicUsize::new(0));
    assert!(matches!(Worker::execute(None), WorkerStep::Finished));
    assert!(matches!(Worker::execute(Some(None)), WorkerStep::Finished));
    assert!(matches!(Worker::execute(Some(Some(task(&runs)))), WorkerStep::Ran(Ok(()))));
    assert_eq!(runs.load(Ordering::SeqCst), 1);
}

#[test]
fn scheduler_adapter_passes_work_and_stop() {
    let runs = Arc::new(AtomicUsize::new(0));
    let (sender, receiver) = mpsc::channel();
    let mut adapter = EasySchedulerAdapter::new(sender);
    assert!(adapter.schedule(task(&runs)));
    assert!(adapter.stop());
    assert!(matches!(receiver.recv(), Ok(Some(_))));
    assert!(matches!(receiver.recv(), Ok(None)));
    drop(receiver);
    assert!(!adapter.schedule(task(&runs)));
    assert!(!adapter.stop());
}

#[test]
fn wrapper_runs_its_closure_once() {
    let runs = Arc::new(AtomicUsize::new(0));
    let counter = Arc::clone(&runs);
    let mut wrapper = RunnableWrapper::new(move || {
        counter.fetch_add(1, Ordering::SeqCst);
    });
    assert!(wrapper.run().is_ok());
    assert_eq!(runs.load(Ordering::SeqCst), 1);
    match wrapper.run() {
        Err(e) => assert_eq!(e.message, "RunnableWrapper is already run"),
        Ok(()) => panic!("a wrapper ran twice"),
    }
    assert_eq!(runs.load(Ordering::SeqCst), 1);
}

#[test]
fn runnable_error_description() {
    let e = RunnableError { message: "oops".to_string() };
    assert_eq!(e.describe(), "RunnableError: oops");
}
