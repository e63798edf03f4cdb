use concurrent_queue::LockFreeQueue;
use concurrent_queue::Phase;
use concurrent_queue::Pointer;
use concurrent_queue::Progress;
use concurrent_queue::Worker;
use concurrent_queue::HEADROOM;

fn finish(q: &mut LockFreeQueue<i32>, w: usize) -> (Progress<i32>, usize) {
    let mut steps = 0;
    loop {
        let progress = q.step(w);
        steps += 1;
        if progress != Progress::Pending {
            return (progress, steps);
        }
    }
}

#[test]
fn new_queue_is_empty() {
    let mut q: LockFreeQueue<i32> = LockFreeQueue::new();
    assert_eq!(q.values(), Vec::<i32>::new());
    assert_eq!(q.worker_count(), 0);
    assert_eq!(q.updates(), 0);
    assert_eq!(q.dequeue(), None);
}

#[test]
fn three_values_come_out_in_order_then_empty() {
    let mut q = LockFreeQueue::new();
    q.enqueue(1);
    q.enqueue(2);
    q.enqueue(3);
    assert_eq!(q.dequeue(), Some(1));
    assert_eq!(q.dequeue(), Some(2));
    assert_eq!(q.dequeue(), Some(3));
    assert_eq!(q.dequeue(), None);
}

#[test]
fn empty_queue_stays_empty_however_often_asked() {
    let mut q: LockFreeQueue<i32> = LockFreeQueue::new();
    for _ in 0..5 {
        assert_eq!(q.dequeue(), None);
    }
    q.enqueue(4);
    assert_eq!(q.dequeue(), Some(4));
    for _ in 0..5 {
        assert_eq!(q.dequeue(), None);
    }
}

#[test]
fn values_lists_the_queue_oldest_first() {
    let mut q = LockFreeQueue::new();
    q.enqueue(5);
    q.enqueue(6);
    q.enqueue(7);
    assert_eq!(q.values(), vec![5, 6, 7]);
    assert_eq!(q.dequeue(), Some(5));
    assert_eq!(q.values(), vec![6, 7]);
    q.enqueue(8);
    assert_eq!(q.values(), vec![6, 7, 8]);
}

#[test]
fn alternating_producer_and_consumer_keep_order() {
    let mut q = LockFreeQueue::new();
    let mut out = Vec::new();
    for round in 0..50 {
        q.enqueue(2 * round);
        q.enqueue(2 * round + 1);
        out.push(q.dequeue().unwrap());
    }
    while let Some(value) = q.dequeue() {
        out.push(value);
    }
    let expected: Vec<i32> = (0..100).collect();
    assert_eq!(out, expected);
}

#[test]
fn an_operation_run_to_completion_leaves_its_worker_at_rest() {
    let mut q = LockFreeQueue::new();
    q.enqueue(1);
    assert_eq!(q.worker_count(), 1);
    assert_eq!(q.worker(0), Worker::new());
    q.dequeue();
    assert_eq!(q.worker_count(), 1);
    assert_eq!(q.worker(0).phase, Phase::Idle);
}

#[test]
fn acquire_takes_first_worker_at_rest_or_registers() {
    let mut q: LockFreeQueue<i32> = LockFreeQueue::new();
    assert_eq!(q.acquire(), 0);
    assert_eq!(q.worker_count(), 1);
    assert_eq!(q.acquire(), 0);
    q.begin_dequeue(0);
    assert_eq!(q.acquire(), 1);
    assert_eq!(q.worker_count(), 2);
    q.begin_dequeue(1);
    finish(&mut q, 0);
    assert_eq!(q.acquire(), 0);
    assert_eq!(q.worker_count(), 2);
}

#[test]
fn register_numbers_workers_from_zero() {
    let mut q: LockFreeQueue<i32> = LockFreeQueue::new();
    assert_eq!(q.register(), 0);
    assert_eq!(q.register(), 1);
    assert_eq!(q.register(), 2);
    assert_eq!(q.worker_count(), 3);
    assert_eq!(q.worker(2), Worker::new());
}

#[test]
fn enqueue_alone_takes_seven_actions_and_two_updates() {
    let mut q = LockFreeQueue::new();
    let w = q.register();
    q.begin_enqueue(w, 11);
    assert_eq!(q.worker(w).phase, Phase::EnqSnapshot);
    assert_eq!(q.worker(w).value, Some(11));
    assert_eq!(q.worker(w).node, 1);
    let (progress, steps) = finish(&mut q, w);
    assert_eq!(progress, Progress::Enqueued);
    assert_eq!(steps, 7);
    assert_eq!(q.updates(), 2);
    assert_eq!(q.memory().tail, Pointer { pointer: Some(1), generation: 1 });
    assert_eq!(q.memory().head, Pointer { pointer: Some(0), generation: 0 });
    assert_eq!(q.memory().nodes[0].next, Pointer { pointer: Some(1), generation: 1 });
    assert_eq!(q.memory().nodes[1].value, Some(11));
}

#[test]
fn dequeue_alone_takes_nine_actions_and_one_update() {
    let mut q = LockFreeQueue::new();
    q.enqueue(11);
    let w = q.acquire();
    q.begin_dequeue(w);
    let (progress, steps) = finish(&mut q, w);
    assert_eq!(progress, Progress::Dequeued(11));
    assert_eq!(steps, 9);
    assert_eq!(q.updates(), 3);
    assert_eq!(q.memory().head, Pointer { pointer: Some(1), generation: 1 });
    assert_eq!(q.memory().retired, vec![0]);
}

#[test]
fn dequeue_alone_on_empty_queue_takes_seven_actions_and_no_update() {
    let mut q: LockFreeQueue<i32> = LockFreeQueue::new();
    let w = q.register();
    q.begin_dequeue(w);
    let (progress, steps) = finish(&mut q, w);
    assert_eq!(progress, Progress::Empty);
    assert_eq!(steps, 7);
    assert_eq!(q.updates(), 0);
    assert_eq!(q.worker(w), Worker::new());
}

#[test]
fn enqueue_walks_through_its_phases() {
    let mut q = LockFreeQueue::new();
    let w = q.register();
    q.begin_enqueue(w, 3);
    let expected = [
        Phase::EnqProtect,
        Phase::EnqValidate,
        Phase::EnqReadNext,
        Phase::EnqRecheck,
        Phase::EnqLink,
        Phase::EnqSwing,
    ];
    for phase in expected {
        assert_eq!(q.step(w), Progress::Pending);
        assert_eq!(q.worker(w).phase, phase);
    }
    assert_eq!(q.values(), vec![3]);
    assert_eq!(q.worker(w).hazard0, Some(0));
    assert_eq!(q.step(w), Progress::Enqueued);
    assert_eq!(q.worker(w).phase, Phase::Idle);
    assert_eq!(q.worker(w).hazard0, None);
}

#[test]
fn dequeue_walks_through_its_phases() {
    let mut q = LockFreeQueue::new();
    q.enqueue(3);
    let w = q.acquire();
    q.begin_dequeue(w);
    let expected = [
        Phase::DeqProtect,
        Phase::DeqValidate,
        Phase::DeqReadTail,
        Phase::DeqReadNext,
        Phase::DeqProtectNext,
        Phase::DeqRecheck,
        Phase::DeqReadValue,
        Phase::DeqSwing,
    ];
    for phase in expected {
        assert_eq!(q.step(w), Progress::Pending);
        assert_eq!(q.worker(w).phase, phase);
    }
    assert_eq!(q.worker(w).hazard0, Some(0));
    assert_eq!(q.worker(w).hazard1, Some(1));
    assert_eq!(q.worker(w).value, Some(3));
    assert_eq!(q.values(), vec![3]);
    assert_eq!(q.step(w), Progress::Dequeued(3));
    assert_eq!(q.values(), Vec::<i32>::new());
}

#[test]
fn no_operation_alone_needs_more_actions_than_the_headroom() {
    let mut q = LockFreeQueue::new();
    let w = q.register();
    for round in 0..20 {
        q.begin_enqueue(w, round);
        let (_, steps) = finish(&mut q, w);
        assert!(steps < HEADROOM as usize);
        if round % 3 == 0 {
            q.begin_dequeue(w);
            let (_, steps) = finish(&mut q, w);
            assert!(steps < HEADROOM as usize);
        }
    }
}

#[test]
fn phases_know_their_operation() {
    assert!(Phase::EnqSnapshot.is_enqueuing());
    assert!(Phase::EnqSwing.is_enqueuing());
    assert!(Phase::EnqHelp.is_enqueuing());
    assert!(!Phase::DeqSnapshot.is_enqueuing());
    assert!(!Phase::DeqSwing.is_enqueuing());
    assert!(!Phase::Idle.is_enqueuing());
    assert!(Phase::Idle.is_idle());
    assert!(!Phase::EnqLink.is_idle());
    assert!(!Phase::DeqHelp.is_idle());
}

#[test]
fn worker_record_guards_its_hazard_slots() {
    let mut worker: Worker<i32> = Worker::new();
    assert!(!worker.is_guarding(0));
    worker.hazard0 = Some(3);
    worker.hazard1 = Some(5);
    assert!(worker.is_guarding(3));
    assert!(worker.is_guarding(5));
    assert!(!worker.is_guarding(4));
}
