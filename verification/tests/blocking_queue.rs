use concurrent_queue::Attempt;
use concurrent_queue::BlockingQueue;
use concurrent_queue::Wake;

#[test]
fn new_blocking_queue_is_empty_and_open() {
    let q: BlockingQueue<i32> = BlockingQueue::new();
    assert_eq!(q.len(), 0);
    assert!(!q.is_done());
    assert_eq!(q.item(0), None);
}

#[test]
fn blocking_queue_hands_out_values_in_order() {
    let mut q = BlockingQueue::new();
    assert_eq!(q.enqueue(1), Wake::One);
    assert_eq!(q.enqueue(2), Wake::One);
    assert_eq!(q.enqueue(3), Wake::One);
    assert_eq!(q.len(), 3);
    assert_eq!(q.dequeue(), Attempt::Value(1));
    assert_eq!(q.dequeue(), Attempt::Value(2));
    assert_eq!(q.dequeue(), Attempt::Value(3));
    assert_eq!(q.len(), 0);
}

#[test]
fn dequeue_on_empty_open_queue_blocks_until_enqueue() {
    let mut q = BlockingQueue::new();
    assert_eq!(q.dequeue(), Attempt::Blocked);
    assert_eq!(q.dequeue(), Attempt::Blocked);
    assert_eq!(q.len(), 0);
    assert!(!q.is_done());
    q.enqueue(9);
    assert_eq!(q.dequeue(), Attempt::Value(9));
    assert_eq!(q.dequeue(), Attempt::Blocked);
}

#[test]
fn shutdown_on_empty_queue_releases_with_closed() {
    let mut q: BlockingQueue<i32> = BlockingQueue::new();
    assert_eq!(q.dequeue(), Attempt::Blocked);
    assert_eq!(q.set_done(), Wake::All);
    assert!(q.is_done());
    assert_eq!(q.dequeue(), Attempt::Closed);
    assert_eq!(q.dequeue(), Attempt::Closed);
    assert_eq!(q.dequeue(), Attempt::Closed);
}

#[test]
fn shutdown_drains_buffered_values_before_closing() {
    let mut q = BlockingQueue::new();
    q.enqueue(1);
    q.enqueue(2);
    q.enqueue(3);
    q.set_done();
    assert_eq!(q.len(), 3);
    assert_eq!(q.dequeue(), Attempt::Value(1));
    assert_eq!(q.dequeue(), Attempt::Value(2));
    assert_eq!(q.dequeue(), Attempt::Value(3));
    assert_eq!(q.dequeue(), Attempt::Closed);
    assert_eq!(q.dequeue(), Attempt::Closed);
}

#[test]
fn enqueue_after_shutdown_is_accepted() {
    let mut q = BlockingQueue::new();
    q.set_done();
    assert_eq!(q.dequeue(), Attempt::Closed);
    assert_eq!(q.enqueue(4), Wake::One);
    assert!(q.is_done());
    assert_eq!(q.len(), 1);
    assert_eq!(q.dequeue(), Attempt::Value(4));
    assert_eq!(q.dequeue(), Attempt::Closed);
}

#[test]
fn set_done_twice_changes_nothing_more() {
    let mut q = BlockingQueue::new();
    q.enqueue(1);
    q.set_done();
    q.set_done();
    assert!(q.is_done());
    assert_eq!(q.len(), 1);
    assert_eq!(q.dequeue(), Attempt::Value(1));
}

#[test]
fn item_reads_without_removing() {
    let mut q = BlockingQueue::new();
    q.enqueue(String::from("a"));
    q.enqueue(String::from("b"));
    assert_eq!(q.item(0), Some(&String::from("a")));
    assert_eq!(q.item(1), Some(&String::from("b")));
    assert_eq!(q.item(2), None);
    assert_eq!(q.len(), 2);
    assert_eq!(q.dequeue(), Attempt::Value(String::from("a")));
    assert_eq!(q.item(0), Some(&String::from("b")));
    assert_eq!(q.item(1), None);
}
