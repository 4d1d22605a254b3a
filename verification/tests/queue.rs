use executors::sync::queue::{Closer, ErrAlreadyClosed, MPMCQueue, Receiver, RecvStep, SendAction, Sender};

#[test]
fn queue_test_just_works() {
    let mut queue = MPMCQueue::new();

    queue.send(1);
    queue.send(2);
    queue.send(3);

    let result = queue.close();
    assert!(result.is_ok());

    let result_close = queue.close();
    assert!(result_close.is_err());

    assert_eq!(queue.recv(), Some(1));
    assert_eq!(queue.recv(), Some(2));
    assert_eq!(queue.recv(), Some(3));
    assert_eq!(queue.recv(), None);
}

#[test]
fn items_come_out_in_the_order_they_went_in() {
    let mut queue: MPMCQueue<u32> = MPMCQueue::new();
    for i in 0..10 {
        queue.send(i);
    }
    for i in 0..10 {
        assert_eq!(queue.recv(), Some(i));
    }
    assert_eq!(queue.close(), Ok(()));
    assert_eq!(queue.recv(), None);
}

#[test]
fn closed_queue_drops_new_items_but_keeps_queued_ones() {
    let mut queue: MPMCQueue<&str> = MPMCQueue::default();
    queue.send("kept");
    assert_eq!(queue.close(), Ok(()));
    assert_eq!(queue.offer("dropped"), SendAction::Dropped);
    queue.send("also dropped");
    assert_eq!(queue.recv(), Some("kept"));
    assert_eq!(queue.recv(), None);
}

#[test]
fn second_close_reports_already_closed() {
    let mut queue: MPMCQueue<u8> = MPMCQueue::new();
    assert_eq!(queue.close(), Ok(()));
    assert_eq!(queue.close(), Err(ErrAlreadyClosed {}));
    assert_eq!(queue.close(), Err(ErrAlreadyClosed {}));
}

#[test]
fn poll_waits_on_open_empty_queue_and_send_wakes_waiters() {
    let mut queue: MPMCQueue<i64> = MPMCQueue::new();
    assert!(matches!(queue.poll(), RecvStep::Wait));
    assert!(matches!(queue.poll(), RecvStep::Wait));
    assert_eq!(queue.offer(7), SendAction::QueuedWakeAll);
    assert_eq!(queue.offer(8), SendAction::Queued);
    assert!(matches!(queue.poll(), RecvStep::Item(7)));
    assert!(matches!(queue.poll(), RecvStep::Item(8)));
    assert!(matches!(queue.poll(), RecvStep::Wait));
    assert_eq!(queue.close(), Ok(()));
    assert!(matches!(queue.poll(), RecvStep::Closed));
}

#[test]
fn recv_on_closed_queue_drains_then_reports_none() {
    let mut queue: MPMCQueue<i32> = MPMCQueue::new();
    queue.send(5);
    assert_eq!(queue.recv(), Some(5));
    queue.send(6);
    assert_eq!(queue.close(), Ok(()));
    assert_eq!(queue.recv(), Some(6));
    assert_eq!(queue.recv(), None);
    assert_eq!(queue.recv(), None);
}

#[test]
fn waiting_receiver_is_woken_by_the_next_send() {
    let mut queue: MPMCQueue<char> = MPMCQueue::new();
    assert!(matches!(queue.poll(), RecvStep::Wait));
    assert_eq!(queue.offer('x'), SendAction::QueuedWakeAll);
    assert!(matches!(queue.poll(), RecvStep::Item('x')));
    queue.send('y');
    assert!(matches!(queue.poll(), RecvStep::Item('y')));
}
