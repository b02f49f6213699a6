use exit_relay::net::{Async, IoError};
use exit_relay::write_queue::{WriteQueue, WriteStep};

#[test]
fn new_queue_is_empty() {
    let queue = WriteQueue::new();

    assert!(queue.is_empty());
    assert_eq!(queue.remaining(), &[] as &[u8]);
}

#[test]
fn partial_write_is_resumed_where_it_stopped() {
    let mut queue = WriteQueue::new();
    queue.enqueue(vec![1, 2, 3, 4, 5]);

    assert_eq!(queue.remaining(), &[1, 2, 3, 4, 5]);
    assert_eq!(queue.write_result(Ok(Async::Ready(2))), WriteStep::Pending);
    assert_eq!(queue.remaining(), &[3, 4, 5]);
    assert_eq!(queue.write_result(Ok(Async::NotReady)), WriteStep::Pending);
    assert_eq!(queue.remaining(), &[3, 4, 5]);
    assert_eq!(queue.write_result(Ok(Async::Ready(0))), WriteStep::Pending);
    assert_eq!(queue.remaining(), &[3, 4, 5]);
    assert_eq!(queue.write_result(Ok(Async::Ready(3))), WriteStep::Idle);
    assert!(queue.is_empty());
}

#[test]
fn bytes_are_written_in_the_order_in_which_they_came() {
    let mut queue = WriteQueue::new();
    queue.enqueue(vec![1, 2]);
    queue.enqueue(vec![3]);
    assert_eq!(queue.write_result(Ok(Async::Ready(1))), WriteStep::Pending);
    queue.enqueue(vec![4, 5]);

    assert_eq!(queue.remaining(), &[2, 3, 4, 5]);
    assert_eq!(queue.write_result(Ok(Async::Ready(4))), WriteStep::Idle);
    queue.enqueue(vec![6]);
    assert_eq!(queue.remaining(), &[6]);
    assert!(!queue.is_empty());
}

#[test]
fn failed_write_leaves_the_bytes_and_reports_the_error() {
    let mut queue = WriteQueue::new();
    queue.enqueue(vec![7, 8]);

    assert_eq!(
        queue.write_result(Err(IoError::BrokenPipe)),
        WriteStep::Failed(IoError::BrokenPipe)
    );
    assert_eq!(queue.remaining(), &[7, 8]);
}

#[test]
fn write_on_an_empty_queue_is_idle() {
    let mut queue = WriteQueue::new();

    assert_eq!(queue.write_result(Ok(Async::NotReady)), WriteStep::Idle);
    assert_eq!(queue.write_result(Ok(Async::Ready(0))), WriteStep::Idle);
}
