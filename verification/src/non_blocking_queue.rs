//! The lock-free queue.
//!
//! [`LockFreeQueue`] holds the shared memory of the algorithm and the
//! records of its workers. A caller that owns the queue alone uses
//! [`LockFreeQueue::enqueue`] and [`LockFreeQueue::dequeue`]. Callers that
//! share it register as workers and advance their operations one atomic
//! action at a time with [`LockFreeQueue::step`], in any order.

use crate::model::Phase;
use crate::model::Progress;
use crate::model::State;
use crate::model::Status;
use crate::model::Worker;
use crate::node::Node;
use crate::pointer::same_node;
use crate::pointer::Pointer;
use crate::progress::lemma_budget_bounded;
use crate::progress::lemma_dequeue_stays_current;
use crate::progress::lemma_step_lowers_budget;
use crate::progress::HEADROOM;
use crate::safety::lemma_begin_dequeue_inv;
use crate::safety::lemma_begin_enqueue_inv;
use crate::safety::lemma_contents_is_backlog;
use crate::safety::lemma_initial_inv;
use crate::safety::lemma_protected_by_workers;
use crate::safety::lemma_reclaim_inv;
use crate::safety::lemma_register_inv;
use crate::safety::lemma_step_inv;
use vstd::prelude::*;

verus! {

/// The part of a [`State`] that exists for the proofs alone.
#[verifier::ext_equal]
pub struct Ledger<T> {
    /// The life stage of each slot.
    pub status: Seq<Status>,
    /// The linking order of the slots.
    pub serial: Seq<nat>,
    /// The list from the head node to the last node.
    pub chain: Seq<usize>,
    /// Every value linked so far.
    pub enqueued: Seq<T>,
    /// Every value removed so far.
    pub dequeued: Seq<T>,
}

impl<T> State<T> {
    /// The bookkeeping of this state.
    pub open spec fn ledger(self) -> Ledger<T> {
        Ledger {
            status: self.status,
            serial: self.serial,
            chain: self.chain,
            enqueued: self.enqueued,
            dequeued: self.dequeued,
        }
    }
}

/// The memory that the workers share: the two tagged pointers, the arena of
/// nodes, and the lists of the reclaimer.
pub struct Queue<T> {
    /// Refers to the sentinel: the node before the oldest value.
    pub head: Pointer,
    /// Refers to the last node, or to the one before it while an enqueue is
    /// half done.
    pub tail: Pointer,
    /// The arena of nodes.
    pub nodes: Vec<Node<T>>,
    /// Slots ready for reuse.
    pub free: Vec<usize>,
    /// Slots removed from the list and not yet safe to reuse.
    pub retired: Vec<usize>,
    /// How many updates of tagged pointers have taken place.
    pub updates: u64,
}

impl<T: Copy> Queue<T> {
    /// The memory of an empty queue: a sentinel in slot 0, to which head and
    /// tail refer.
    pub fn new() -> (q: Self)
        ensures
            q.head == State::<T>::initial().head,
            q.tail == State::<T>::initial().tail,
            q.nodes@ == State::<T>::initial().nodes,
            q.free@ == State::<T>::initial().free,
            q.retired@ == State::<T>::initial().retired,
            q.updates == 0,
    {
        let mut nodes: Vec<Node<T>> = Vec::new();
        nodes.push(Node::sentinel());
        let q = Queue {
            head: Pointer::new(Some(0), 0),
            tail: Pointer::new(Some(0), 0),
            nodes,
            free: Vec::new(),
            retired: Vec::new(),
            updates: 0,
        };
        proof {
            assert(q.nodes@ =~= State::<T>::initial().nodes);
            assert(q.free@ =~= State::<T>::initial().free);
            assert(q.retired@ =~= State::<T>::initial().retired);
        }
        q
    }
}

/// A FIFO queue whose operations are sequences of atomic actions on tagged
/// pointers.
pub struct LockFreeQueue<T> {
    q: Queue<T>,
    workers: Vec<Worker<T>>,
    ledger: Ghost<Ledger<T>>,
}

impl<T: Copy> View for LockFreeQueue<T> {
    type V = Seq<T>;

    /// The values in the queue, oldest first.
    open spec fn view(&self) -> Seq<T> {
        self.state().contents()
    }
}

impl<T: Copy> LockFreeQueue<T> {
    /// The state of the transition system that this queue is in.
    pub closed spec fn state(&self) -> State<T> {
        State {
            head: self.q.head,
            tail: self.q.tail,
            nodes: self.q.nodes@,
            free: self.q.free@,
            retired: self.q.retired@,
            workers: self.workers@,
            updates: self.q.updates,
            status: self.ledger@.status,
            serial: self.ledger@.serial,
            chain: self.ledger@.chain,
            enqueued: self.ledger@.enqueued,
            dequeued: self.ledger@.dequeued,
        }
    }

    /// The queue is in a state that satisfies the invariant.
    pub open spec fn wf(&self) -> bool {
        self.state().inv()
    }

    /// An empty queue with its sentinel and no workers.
    pub fn new() -> (queue: Self)
        ensures
            queue.wf(),
            queue.state() == State::<T>::initial(),
            queue@ == Seq::<T>::empty(),
    {
        let queue = LockFreeQueue {
            q: Queue::new(),
            workers: Vec::new(),
            ledger: Ghost(State::<T>::initial().ledger()),
        };
        proof {
            lemma_initial_inv::<T>();
            assert(queue.state() =~= State::<T>::initial());
        }
        queue
    }

    /// The number of registered workers.
    pub fn worker_count(&self) -> (count: usize)
        ensures
            count == self.state().workers.len(),
    {
        self.workers.len()
    }

    /// The record of worker `w`.
    pub fn worker(&self, w: usize) -> (record: Worker<T>)
        requires
            w < self.state().workers.len(),
        ensures
            record == self.state().workers[w as int],
    {
        self.workers[w]
    }

    /// The number of updates of tagged pointers so far.
    pub fn updates(&self) -> (count: u64)
        ensures
            count == self.state().updates,
    {
        self.q.updates
    }

    /// The shared memory as it stands.
    pub fn memory(&self) -> (q: &Queue<T>)
        ensures
            q.head == self.state().head,
            q.tail == self.state().tail,
            q.nodes@ == self.state().nodes,
            q.free@ == self.state().free,
            q.retired@ == self.state().retired,
            q.updates == self.state().updates,
    {
        &self.q
    }

    /// Whether some worker's protection set holds `node`.
    pub fn is_protected(&self, node: usize) -> (yes: bool)
        ensures
            yes == self.state().protected(node),
    {
        let mut w: usize = 0;
        while w < self.workers.len()
            invariant
                w <= self.workers.len(),
                forall|x: int| 0 <= x < w ==> !(#[trigger] self.workers@[x]).guards(node),
            decreases self.workers.len() - w,
        {
            if self.workers[w].is_guarding(node) {
                assert(self.state().workers[w as int].guards(node));
                return true;
            }
            w += 1;
        }
        false
    }

    /// A new worker joins, at rest. Returns its index.
    pub fn register(&mut self) -> (w: usize)
        requires
            old(self).wf(),
        ensures
            final(self).wf(),
            final(self).state() == old(self).state().register(),
            w == old(self).state().workers.len(),
    {
        proof {
            lemma_register_inv(self.state());
        }
        self.workers.push(Worker::new());
        proof {
            assert(self.state() =~= old(self).state().register());
        }
        self.workers.len() - 1
    }

    /// Scans the retired nodes and moves those that no worker protects to
    /// the free list.
    pub fn reclaim(&mut self)
        requires
            old(self).wf(),
        ensures
            final(self).wf(),
            final(self).state() == old(self).state().reclaim(),
    {
        let ghost s = self.state();
        let total = self.q.retired.len();
        let mut kept: Vec<usize> = Vec::new();
        let mut k: usize = 0;
        while k < total
            invariant
                k <= total,
                total == s.retired.len(),
                self.q.retired@ == s.retired,
                self.q.nodes@ == s.nodes,
                self.q.head == s.head,
                self.q.tail == s.tail,
                self.q.updates == s.updates,
                self.workers@ == s.workers,
                self.ledger@ == s.ledger(),
                kept@ == s.retired.take(k as int).filter(s.keeps()),
                self.q.free@ == s.free + s.retired.take(k as int).filter(s.frees()),
            decreases total - k,
        {
            let node = self.q.retired[k];
            let shielded = self.is_protected(node);
            proof {
                let seen = s.retired.take(k as int);
                assert(s.retired.take(k + 1) =~= seen.push(node));
                seen.lemma_filter_push(node, s.keeps());
                seen.lemma_filter_push(node, s.frees());
                lemma_protected_by_workers(self.state(), s, node);
            }
            if shielded {
                kept.push(node);
            } else {
                self.q.free.push(node);
            }
            proof {
                let seen = s.retired.take(k as int);
                if !shielded {
                    assert(self.q.free@ =~= s.free + seen.filter(s.frees()).push(node));
                }
            }
            k += 1;
        }
        proof {
            assert(s.retired.take(total as int) =~= s.retired);
            lemma_reclaim_inv(s);
        }
        self.q.retired = kept;
        self.ledger = Ghost(s.reclaim().ledger());
        proof {
            assert(self.state() =~= s.reclaim());
        }
    }

    /// Hands out a slot holding `value` for worker `w`.
    fn allocate(&mut self, w: usize, value: T) -> (slot: usize)
        requires
            old(self).state().inv(),
            old(self).state().resting(w as int),
            old(self).state().updates < u64::MAX,
        ensures
            final(self).state() == old(self).state().allocate(w as int, value),
            slot == old(self).state().next_slot(),
            old(self).state().free.len() == 0 ==> old(self).state().nodes.len() < usize::MAX,
    {
        let ghost s = self.state();
        let slot = match self.q.free.pop() {
            Some(slot) => {
                assert(s.free[s.free.len() - 1] == slot);
                let link = Pointer::new(None, self.q.nodes[slot].next.generation + 1);
                self.q.nodes.set(slot, Node { value: Some(value), next: link });
                self.q.updates = self.q.updates + 1;
                slot
            },
            None => {
                self.q.nodes.push(Node::new(value));
                self.q.nodes.len() - 1
            },
        };
        self.ledger = Ghost(s.allocate(w as int, value).ledger());
        proof {
            assert(self.state() =~= s.allocate(w as int, value));
        }
        slot
    }

    /// Worker `w`, at rest, starts to enqueue `value`: a node is allocated
    /// for it, after a scan if the free list is empty.
    pub fn begin_enqueue(&mut self, w: usize, value: T)
        requires
            old(self).wf(),
            old(self).state().resting(w as int),
            old(self).state().updates < u64::MAX,
        ensures
            final(self).wf(),
            final(self).state() == old(self).state().begin_enqueue(w as int, value),
    {
        let ghost s = self.state();
        if self.q.free.len() == 0 {
            self.reclaim();
        }
        assert(self.state() == s.replenished());
        let ghost ready = self.state();
        let slot = self.allocate(w, value);
        let mut me = self.workers[w];
        me.phase = Phase::EnqSnapshot;
        me.node = slot;
        me.value = Some(value);
        self.workers.set(w, me);
        proof {
            assert(self.state() =~= s.begin_enqueue(w as int, value));
            lemma_begin_enqueue_inv(s, w as int, value);
        }
    }

    /// Worker `w`, at rest, starts to dequeue.
    pub fn begin_dequeue(&mut self, w: usize)
        requires
            old(self).wf(),
            old(self).state().resting(w as int),
        ensures
            final(self).wf(),
            final(self).state() == old(self).state().begin_dequeue(w as int),
    {
        proof {
            lemma_begin_dequeue_inv(self.state(), w as int);
        }
        let mut me = self.workers[w];
        me.phase = Phase::DeqSnapshot;
        self.workers.set(w, me);
        proof {
            assert(self.state() =~= old(self).state().begin_dequeue(w as int));
        }
    }

    /// One action of an enqueuing worker.
    fn step_enqueue(&mut self, w: usize) -> (progress: Progress<T>)
        requires
            old(self).state().inv(),
            old(self).state().active(w as int),
            old(self).state().workers[w as int].phase.enqueuing(),
            old(self).state().updates < u64::MAX,
        ensures
            final(self).state() == old(self).state().enqueue_step(w as int),
            progress == old(self).state().outcome(w as int),
    {
        let ghost s = self.state();
        proof {
            assert(s.worker_inv(w as int));
        }
        let mut me = self.workers[w];
        let mut progress = Progress::Pending;
        match me.phase {
            Phase::EnqSnapshot => {
                me.tail = self.q.tail.load();
                me.phase = Phase::EnqProtect;
            },
            Phase::EnqProtect => {
                me.hazard0 = me.tail.pointer;
                me.phase = Phase::EnqValidate;
            },
            Phase::EnqValidate => {
                if self.q.tail.holds(me.tail) {
                    me.phase = Phase::EnqReadNext;
                } else {
                    me.phase = Phase::EnqSnapshot;
                }
            },
            Phase::EnqReadNext => {
                let last = me.tail.pointer.unwrap();
                me.next = self.q.nodes[last].next.load();
                me.phase = Phase::EnqRecheck;
            },
            Phase::EnqRecheck => {
                if !self.q.tail.holds(me.tail) {
                    me.phase = Phase::EnqSnapshot;
                } else if me.next.pointer.is_none() {
                    me.phase = Phase::EnqLink;
                } else {
                    me.phase = Phase::EnqHelp;
                }
            },
            Phase::EnqLink => {
                let last = me.tail.pointer.unwrap();
                let mut cell = self.q.nodes[last];
                if cell.next.compare_and_swap(None, me.next.generation, Some(me.node)) {
                    self.q.nodes.set(last, cell);
                    self.q.updates = self.q.updates + 1;
                    me.phase = Phase::EnqSwing;
                } else {
                    me.phase = Phase::EnqSnapshot;
                }
            },
            Phase::EnqSwing => {
                if self.q.tail.compare_and_swap(
                    me.tail.pointer,
                    me.tail.generation,
                    Some(me.node),
                ) {
                    self.q.updates = self.q.updates + 1;
                }
                me = Worker::new();
                progress = Progress::Enqueued;
            },
            Phase::EnqHelp => {
                if self.q.tail.compare_and_swap(
                    me.tail.pointer,
                    me.tail.generation,
                    me.next.pointer,
                ) {
                    self.q.updates = self.q.updates + 1;
                }
                me.phase = Phase::EnqSnapshot;
            },
            _ => {},
        }
        self.workers.set(w, me);
        self.ledger = Ghost(s.enqueue_step(w as int).ledger());
        proof {
            assert(self.state() =~= s.enqueue_step(w as int));
        }
        progress
    }

    /// One action of a dequeuing worker.
    fn step_dequeue(&mut self, w: usize) -> (progress: Progress<T>)
        requires
            old(self).state().inv(),
            old(self).state().active(w as int),
            old(self).state().workers[w as int].phase.dequeuing(),
            old(self).state().updates < u64::MAX,
        ensures
            final(self).state() == old(self).state().dequeue_step(w as int),
            progress == old(self).state().outcome(w as int),
    {
        let ghost s = self.state();
        proof {
            assert(s.worker_inv(w as int));
        }
        let mut me = self.workers[w];
        let mut progress = Progress::Pending;
        match me.phase {
            Phase::DeqSnapshot => {
                me.head = self.q.head.load();
                me.phase = Phase::DeqProtect;
            },
            Phase::DeqProtect => {
                me.hazard0 = me.head.pointer;
                me.phase = Phase::DeqValidate;
            },
            Phase::DeqValidate => {
                if self.q.head.holds(me.head) {
                    me.phase = Phase::DeqReadTail;
                } else {
                    me.phase = Phase::DeqSnapshot;
                }
            },
            Phase::DeqReadTail => {
                me.tail = self.q.tail.load();
                me.phase = Phase::DeqReadNext;
            },
            Phase::DeqReadNext => {
                let first = me.head.pointer.unwrap();
                me.next = self.q.nodes[first].next.load();
                me.phase = Phase::DeqProtectNext;
            },
            Phase::DeqProtectNext => {
                me.hazard1 = me.next.pointer;
                me.phase = Phase::DeqRecheck;
            },
            Phase::DeqRecheck => {
                if !self.q.head.holds(me.head) {
                    me.phase = Phase::DeqSnapshot;
                } else if same_node(me.head.pointer, me.tail.pointer) {
                    if me.next.pointer.is_none() {
                        me = Worker::new();
                        progress = Progress::Empty;
                    } else {
                        me.phase = Phase::DeqHelp;
                    }
                } else {
                    me.phase = Phase::DeqReadValue;
                }
            },
            Phase::DeqHelp => {
                if self.q.tail.compare_and_swap(
                    me.tail.pointer,
                    me.tail.generation,
                    me.next.pointer,
                ) {
                    self.q.updates = self.q.updates + 1;
                }
                me.phase = Phase::DeqSnapshot;
            },
            Phase::DeqReadValue => {
                let second = me.next.pointer.unwrap();
                me.value = self.q.nodes[second].value;
                me.phase = Phase::DeqSwing;
            },
            Phase::DeqSwing => {
                if self.q.head.compare_and_swap(
                    me.head.pointer,
                    me.head.generation,
                    me.next.pointer,
                ) {
                    self.q.updates = self.q.updates + 1;
                    self.q.retired.push(me.head.pointer.unwrap());
                    progress = Progress::Dequeued(me.value.unwrap());
                    me = Worker::new();
                } else {
                    me.phase = Phase::DeqSnapshot;
                }
            },
            _ => {},
        }
        self.workers.set(w, me);
        self.ledger = Ghost(s.dequeue_step(w as int).ledger());
        proof {
            assert(self.state() =~= s.dequeue_step(w as int));
        }
        progress
    }

    /// One atomic action of worker `w`: the read, write or compare-and-swap
    /// that its phase names, and the decision that follows from it.
    pub fn step(&mut self, w: usize) -> (progress: Progress<T>)
        requires
            old(self).wf(),
            old(self).state().active(w as int),
            old(self).state().updates < u64::MAX,
        ensures
            final(self).wf(),
            final(self).state() == old(self).state().step(w as int),
            progress == old(self).state().outcome(w as int),
    {
        proof {
            lemma_step_inv(self.state(), w as int);
        }
        if self.workers[w].phase.is_enqueuing() {
            self.step_enqueue(w)
        } else {
            self.step_dequeue(w)
        }
    }

    /// A worker at rest for an operation that runs to completion: the
    /// first registered worker that is at rest, or a new one if all are
    /// busy.
    pub fn acquire(&mut self) -> (w: usize)
        requires
            old(self).wf(),
        ensures
            final(self).wf(),
            final(self).state().resting(w as int),
            forall|x: int| 0 <= x < w ==> old(self).state().active(x),
            w < old(self).state().workers.len() ==> final(self).state() == old(self).state(),
            w >= old(self).state().workers.len() ==> final(self).state() == old(
                self,
            ).state().register(),
    {
        let mut w: usize = 0;
        while w < self.workers.len()
            invariant
                w <= self.workers.len(),
                *self == *old(self),
                self.wf(),
                forall|x: int| 0 <= x < w ==> self.state().active(x),
            decreases self.workers.len() - w,
        {
            if self.workers[w].phase.is_idle() {
                return w;
            }
            w += 1;
        }
        self.register()
    }

    /// Adds `value` at the back of the queue, running one enqueue from
    /// start to end. The operations that other workers have in progress
    /// stay as they are.
    pub fn enqueue(&mut self, value: T)
        requires
            old(self).wf(),
            old(self).state().updates <= u64::MAX - HEADROOM,
        ensures
            final(self).wf(),
            final(self)@ == old(self)@.push(value),
            old(self).state().enqueues_alone(value, final(self).state()),
            final(self).state().enqueued == old(self).state().enqueued.push(value),
            final(self).state().dequeued == old(self).state().dequeued,
            final(self).state().updates <= old(self).state().updates + HEADROOM,
            forall|x: int|
                old(self).state().active(x) ==> final(self).state().workers[x] == old(
                    self,
                ).state().workers[x],
    {
        let ghost before = self.state();
        let w = self.acquire();
        self.begin_enqueue(w, value);
        let ghost start = self.state();
        let ghost mut count: nat = 0;
        proof {
            lemma_budget_bounded(start, w as int);
        }
        let mut done = false;
        while !done
            invariant
                self.wf(),
                0 <= w < self.state().workers.len(),
                self.state() == start.stepped(w as int, count),
                done == (self.state().workers[w as int].phase is Idle),
                !done ==> self.state().workers[w as int].phase.enqueuing(),
                !done ==> self.state().workers[w as int].value == Some(value),
                self.state().updates + self.state().budget(w as int) <= start.updates + 34,
                start.updates <= before.updates + 1,
                before.updates <= u64::MAX - HEADROOM,
                self.state().dequeued == before.dequeued,
                self.state().enqueued == if done || self.state().workers[w as int].phase
                    is EnqSwing {
                    before.enqueued.push(value)
                } else {
                    before.enqueued
                },
                forall|x: int|
                    before.active(x) ==> x != w && x < self.state().workers.len()
                        && self.state().workers[x] == before.workers[x],
            decreases self.state().budget(w as int),
        {
            proof {
                lemma_step_lowers_budget(self.state(), w as int);
            }
            let progress = self.step(w);
            proof {
                count = count + 1;
            }
            match progress {
                Progress::Enqueued => {
                    done = true;
                },
                _ => {},
            }
        }
        proof {
            lemma_contents_is_backlog(before);
            lemma_contents_is_backlog(self.state());
            assert(before.picks(w as int));
            assert(self.state() == before.joined(w as int).begin_enqueue(w as int, value).stepped(
                w as int,
                count,
            ));
        }
    }

    /// Removes the value at the front of the queue, running one dequeue
    /// from start to end; `None` if the queue is empty. The operations that
    /// other workers have in progress stay as they are.
    pub fn dequeue(&mut self) -> (front: Option<T>)
        requires
            old(self).wf(),
            old(self).state().updates <= u64::MAX - HEADROOM,
        ensures
            final(self).wf(),
            old(self)@.len() == 0 ==> front is None && final(self)@ == old(self)@,
            old(self)@.len() > 0 ==> front == Some(old(self)@[0]) && final(self)@ == old(
                self,
            )@.subrange(1, old(self)@.len() as int),
            old(self).state().dequeues_alone(final(self).state()),
            final(self).state().enqueued == old(self).state().enqueued,
            final(self).state().dequeued == match front {
                Some(value) => old(self).state().dequeued.push(value),
                None => old(self).state().dequeued,
            },
            final(self).state().updates <= old(self).state().updates + HEADROOM,
            forall|x: int|
                old(self).state().active(x) ==> final(self).state().workers[x] == old(
                    self,
                ).state().workers[x],
    {
        let ghost before = self.state();
        let w = self.acquire();
        self.begin_dequeue(w);
        let ghost start = self.state();
        proof {
            lemma_budget_bounded(start, w as int);
            lemma_contents_is_backlog(before);
        }
        let mut front: Option<T> = None;
        let mut done = false;
        let ghost mut count: nat = 0;
        while !done
            invariant
                self.wf(),
                0 <= w < self.state().workers.len(),
                self.state() == start.stepped(w as int, count),
                done == (self.state().workers[w as int].phase is Idle),
                !done ==> self.state().workers[w as int].phase.dequeuing(),
                !done ==> self.state().current(w as int),
                !done ==> front is None,
                self.state().updates + self.state().budget(w as int) <= start.updates + 34,
                start.updates == before.updates,
                before.updates <= u64::MAX - HEADROOM,
                before.inv(),
                self.state().enqueued == before.enqueued,
                self.state().dequeued == match front {
                    Some(value) => before.dequeued.push(value),
                    None => before.dequeued,
                },
                done && front is None ==> before.contents().len() == 0,
                forall|x: int|
                    before.active(x) ==> x != w && x < self.state().workers.len()
                        && self.state().workers[x] == before.workers[x],
            decreases self.state().budget(w as int),
        {
            proof {
                lemma_step_lowers_budget(self.state(), w as int);
                lemma_dequeue_stays_current(self.state(), w as int);
                lemma_contents_is_backlog(self.state());
            }
            let progress = self.step(w);
            proof {
                count = count + 1;
            }
            match progress {
                Progress::Dequeued(value) => {
                    front = Some(value);
                    done = true;
                },
                Progress::Empty => {
                    done = true;
                },
                _ => {},
            }
        }
        proof {
            lemma_contents_is_backlog(self.state());
            assert(before.picks(w as int));
            assert(self.state() == before.joined(w as int).begin_dequeue(w as int).stepped(
                w as int,
                count,
            ));
        }
        front
    }

    /// The values in the queue, oldest first: the list is walked from the
    /// node behind the head to the null link.
    pub fn values(&self) -> (items: Vec<T>)
        requires
            self.wf(),
        ensures
            items@ == self@,
    {
        let ghost s = self.state();
        let mut items: Vec<T> = Vec::new();
        let mut at = self.q.nodes[self.q.head.pointer.unwrap()].next.pointer;
        let ghost mut k: int = 0;
        proof {
            if s.chain.len() >= 2 {
                assert(s.nodes[s.chain[0] as int].next.pointer == Some(s.chain[1]));
            }
        }
        while at.is_some()
            invariant
                s == self.state(),
                s.inv(),
                0 <= k < s.chain.len(),
                at == if k + 1 < s.chain.len() {
                    Some(s.chain[k + 1])
                } else {
                    None
                },
                items@ == s.contents().take(k),
            decreases s.chain.len() - k,
        {
            let node = self.q.nodes[at.unwrap()];
            proof {
                assert(s.nodes[s.chain[k + 1] as int].value is Some);
                if k + 2 < s.chain.len() {
                    assert(s.nodes[s.chain[k + 1] as int].next.pointer == Some(s.chain[k + 2]));
                } else {
                    assert(s.chain[k + 1] == s.chain.last());
                }
                assert(s.contents().take(k + 1) =~= s.contents().take(k).push(
                    s.contents()[k],
                ));
            }
            items.push(node.value.unwrap());
            at = node.next.pointer;
            proof {
                k = k + 1;
            }
        }
        proof {
            assert(s.contents().take(k) =~= s.contents());
        }
        items
    }
}

} // verus!
