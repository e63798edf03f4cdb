use concurrent_queue::LockFreeQueue;
use concurrent_queue::Phase;
use concurrent_queue::Progress;

fn finish(q: &mut LockFreeQueue<i32>, w: usize) -> Progress<i32> {
    loop {
        let progress = q.step(w);
        if progress != Progress::Pending {
            return progress;
        }
    }
}

fn advance_to(q: &mut LockFreeQueue<i32>, w: usize, phase: Phase) {
    let mut guard = 0;
    while q.worker(w).phase != phase {
        assert_eq!(q.step(w), Progress::Pending);
        guard += 1;
        assert!(guard < 100);
    }
}

fn next_random(seed: &mut u64) -> u64 {
    *seed = seed.wrapping_mul(6364136223846793005).wrapping_add(1442695040888963407);
    *seed >> 33
}

/// Runs `producers` workers that each enqueue `per_producer` values and
/// `consumers` workers that dequeue, under a pseudo-random scheduler, until
/// every value has come out. Returns what each dequeue got, in order.
fn run(producers: usize, per_producer: usize, consumers: usize, mut seed: u64) -> Vec<i32> {
    let mut q = LockFreeQueue::new();
    for _ in 0..producers + consumers {
        q.register();
    }
    let mut sent = vec![0usize; producers];
    let mut out = Vec::new();
    let total = producers * per_producer;
    let mut actions = 0u64;
    while out.len() < total {
        actions += 1;
        assert!(actions < 10_000_000);
        let w = (next_random(&mut seed) % (producers + consumers) as u64) as usize;
        if next_random(&mut seed) % 64 == 0 {
            q.reclaim();
        }
        if q.worker(w).phase == Phase::Idle {
            if w < producers {
                if sent[w] < per_producer {
                    q.begin_enqueue(w, (w * 1000 + sent[w]) as i32);
                    sent[w] += 1;
                }
            } else {
                q.begin_dequeue(w);
            }
        } else {
            match q.step(w) {
                Progress::Dequeued(value) => out.push(value),
                Progress::Enqueued => assert!(w < producers),
                Progress::Empty => assert!(w >= producers),
                Progress::Pending => {}
            }
        }
    }
    for w in 0..producers + consumers {
        if q.worker(w).phase != Phase::Idle {
            if let Progress::Dequeued(value) = finish(&mut q, w) {
                out.push(value);
            }
        }
    }
    assert_eq!(q.values(), Vec::<i32>::new());
    assert_eq!(q.dequeue(), None);
    out
}

#[test]
fn single_producer_single_consumer_interleaved_keep_order() {
    for seed in 0..20 {
        let out = run(1, 100, 1, seed);
        let expected: Vec<i32> = (0..100).collect();
        assert_eq!(out, expected);
    }
}

#[test]
fn every_enqueued_value_is_dequeued_exactly_once() {
    for seed in 0..20 {
        let mut out = run(3, 40, 2, 1000 + seed);
        assert_eq!(out.len(), 120);
        out.sort();
        let mut expected = Vec::new();
        for p in 0..3 {
            for k in 0..40 {
                expected.push(p * 1000 + k);
            }
        }
        assert_eq!(out, expected);
    }
}

#[test]
fn stress_many_producers_and_consumers() {
    let producers = 6;
    let per_producer = 200;
    let consumers = 5;
    let out = run(producers, per_producer, consumers, 77);
    assert_eq!(out.len(), producers * per_producer);
    let mut seen = std::collections::HashSet::new();
    for value in &out {
        assert!(seen.insert(*value));
    }
    for p in 0..producers as i32 {
        let mine: Vec<i32> = out.iter().copied().filter(|v| v / 1000 == p).collect();
        let expected: Vec<i32> = (0..per_producer as i32).map(|k| p * 1000 + k).collect();
        assert_eq!(mine, expected);
    }
}

#[test]
fn value_is_visible_from_the_moment_of_linking() {
    let mut q = LockFreeQueue::new();
    let a = q.register();
    q.begin_enqueue(a, 5);
    advance_to(&mut q, a, Phase::EnqLink);
    assert_eq!(q.values(), Vec::<i32>::new());
    assert_eq!(q.step(a), Progress::Pending);
    assert_eq!(q.worker(a).phase, Phase::EnqSwing);
    assert_eq!(q.values(), vec![5]);
    assert_eq!(q.memory().tail.pointer, Some(0));
    assert_eq!(q.dequeue(), Some(5));
    assert_eq!(q.step(a), Progress::Enqueued);
    assert_eq!(q.dequeue(), None);
}

#[test]
fn enqueuer_helps_a_lagging_tail() {
    let mut q = LockFreeQueue::new();
    let a = q.register();
    let b = q.register();
    q.begin_enqueue(a, 1);
    advance_to(&mut q, a, Phase::EnqSwing);
    assert_eq!(q.memory().tail.pointer, Some(0));
    q.begin_enqueue(b, 2);
    advance_to(&mut q, b, Phase::EnqHelp);
    assert_eq!(q.step(b), Progress::Pending);
    assert_eq!(q.worker(b).phase, Phase::EnqSnapshot);
    assert_eq!(q.memory().tail.pointer, Some(1));
    assert_eq!(q.memory().tail.generation, 1);
    assert_eq!(finish(&mut q, b), Progress::Enqueued);
    assert_eq!(q.memory().tail.pointer, Some(2));
    assert_eq!(q.step(a), Progress::Enqueued);
    assert_eq!(q.memory().tail.pointer, Some(2));
    assert_eq!(q.memory().tail.generation, 2);
    assert_eq!(q.values(), vec![1, 2]);
}

#[test]
fn dequeuer_helps_a_lagging_tail() {
    let mut q = LockFreeQueue::new();
    let a = q.register();
    let c = q.register();
    q.begin_enqueue(a, 1);
    advance_to(&mut q, a, Phase::EnqSwing);
    q.begin_dequeue(c);
    advance_to(&mut q, c, Phase::DeqHelp);
    assert_eq!(q.step(c), Progress::Pending);
    assert_eq!(q.memory().tail.pointer, Some(1));
    assert_eq!(finish(&mut q, c), Progress::Dequeued(1));
    assert_eq!(q.step(a), Progress::Enqueued);
    assert_eq!(q.values(), Vec::<i32>::new());
}

#[test]
fn second_linker_fails_and_retries() {
    let mut q = LockFreeQueue::new();
    let a = q.register();
    let b = q.register();
    q.begin_enqueue(a, 1);
    q.begin_enqueue(b, 2);
    advance_to(&mut q, a, Phase::EnqLink);
    advance_to(&mut q, b, Phase::EnqLink);
    assert_eq!(q.step(b), Progress::Pending);
    assert_eq!(q.worker(b).phase, Phase::EnqSwing);
    assert_eq!(q.step(a), Progress::Pending);
    assert_eq!(q.worker(a).phase, Phase::EnqSnapshot);
    assert_eq!(q.values(), vec![2]);
    assert_eq!(finish(&mut q, a), Progress::Enqueued);
    assert_eq!(finish(&mut q, b), Progress::Enqueued);
    assert_eq!(q.values(), vec![2, 1]);
}

#[test]
fn second_remover_fails_and_retries() {
    let mut q = LockFreeQueue::new();
    q.enqueue(1);
    q.enqueue(2);
    let a = q.acquire();
    q.begin_dequeue(a);
    let b = q.acquire();
    q.begin_dequeue(b);
    advance_to(&mut q, a, Phase::DeqSwing);
    advance_to(&mut q, b, Phase::DeqSwing);
    assert_eq!(q.step(a), Progress::Dequeued(1));
    assert_eq!(q.step(b), Progress::Pending);
    assert_eq!(q.worker(b).phase, Phase::DeqSnapshot);
    assert_eq!(finish(&mut q, b), Progress::Dequeued(2));
    assert_eq!(q.dequeue(), None);
}

#[test]
fn concurrent_dequeues_on_empty_queue_all_find_it_empty() {
    let mut q: LockFreeQueue<i32> = LockFreeQueue::new();
    let a = q.register();
    let b = q.register();
    let c = q.register();
    for _ in 0..3 {
        q.begin_dequeue(a);
        q.begin_dequeue(b);
        q.begin_dequeue(c);
        let mut results = Vec::new();
        let mut seed = 5;
        while results.len() < 3 {
            let w = (next_random(&mut seed) % 3) as usize;
            if q.worker(w).phase != Phase::Idle {
                let progress = q.step(w);
                if progress != Progress::Pending {
                    results.push(progress);
                }
            }
        }
        assert_eq!(results, vec![Progress::Empty, Progress::Empty, Progress::Empty]);
    }
    assert_eq!(q.updates(), 0);
}

#[test]
fn validation_fails_when_tail_moved_after_snapshot() {
    let mut q = LockFreeQueue::new();
    let a = q.register();
    q.begin_enqueue(a, 1);
    advance_to(&mut q, a, Phase::EnqValidate);
    q.enqueue(2);
    assert_eq!(q.step(a), Progress::Pending);
    assert_eq!(q.worker(a).phase, Phase::EnqSnapshot);
    assert_eq!(finish(&mut q, a), Progress::Enqueued);
    assert_eq!(q.values(), vec![2, 1]);
}

#[test]
fn operations_in_progress_survive_a_complete_operation_of_another() {
    let mut q = LockFreeQueue::new();
    let a = q.register();
    q.begin_enqueue(a, 1);
    advance_to(&mut q, a, Phase::EnqRecheck);
    let record = q.worker(a);
    q.enqueue(2);
    assert_eq!(q.worker(a), record);
    assert_eq!(q.dequeue(), Some(2));
    assert_eq!(q.worker(a), record);
    assert_eq!(q.worker_count(), 2);
}
