//! The queue as a transition system.
//!
//! A [`State`] is everything the threads share (head, tail, the node arena,
//! the retired and free lists, one record per worker) together with the
//! bookkeeping that the proofs need. Each function here is one atomic action:
//! a single read, write or compare-and-swap of shared memory followed by the
//! local decision that depends on it. An execution of the queue under any
//! scheduler is a sequence of these actions.

use crate::node::Node;
use crate::pointer::same_node;
use crate::pointer::Pointer;
use vstd::prelude::*;

verus! {

/// Where a worker stands in its current operation. Each phase names the
/// action that the worker performs next.
#[derive(Clone, Copy, Debug, PartialEq, Eq, Structural)]
pub enum Phase {
    /// No operation in progress.
    Idle,
    /// Enqueue: read the tail.
    EnqSnapshot,
    /// Enqueue: publish the tail node as protected.
    EnqProtect,
    /// Enqueue: check that the tail is still the one that was published.
    EnqValidate,
    /// Enqueue: read the successor link of the tail node.
    EnqReadNext,
    /// Enqueue: check that the tail has not moved while the link was read.
    EnqRecheck,
    /// Enqueue: swing the null link of the last node to the new node.
    EnqLink,
    /// Enqueue: after linking, move the tail to the new node.
    EnqSwing,
    /// Enqueue: the tail lags; move it to its successor and start over.
    EnqHelp,
    /// Dequeue: read the head.
    DeqSnapshot,
    /// Dequeue: publish the head node as protected.
    DeqProtect,
    /// Dequeue: check that the head is still the one that was published.
    DeqValidate,
    /// Dequeue: read the tail.
    DeqReadTail,
    /// Dequeue: read the successor link of the head node.
    DeqReadNext,
    /// Dequeue: publish the successor as protected.
    DeqProtectNext,
    /// Dequeue: check that the head has not moved, then decide.
    DeqRecheck,
    /// Dequeue: the tail lags; move it to its successor and start over.
    DeqHelp,
    /// Dequeue: copy the value out of the successor.
    DeqReadValue,
    /// Dequeue: move the head to the successor.
    DeqSwing,
}

impl Phase {
    /// The phases of an enqueue.
    pub open spec fn enqueuing(self) -> bool {
        self is EnqSnapshot || self is EnqProtect || self is EnqValidate || self is EnqReadNext
            || self is EnqRecheck || self is EnqLink || self is EnqSwing || self is EnqHelp
    }

    /// The phases of a dequeue.
    pub open spec fn dequeuing(self) -> bool {
        !(self is Idle) && !self.enqueuing()
    }

    /// Whether this is a phase of an enqueue.
    pub fn is_enqueuing(&self) -> (yes: bool)
        ensures
            yes == self.enqueuing(),
    {
        match self {
            Phase::EnqSnapshot
            | Phase::EnqProtect
            | Phase::EnqValidate
            | Phase::EnqReadNext
            | Phase::EnqRecheck
            | Phase::EnqLink
            | Phase::EnqSwing
            | Phase::EnqHelp => true,
            _ => false,
        }
    }

    /// Whether this is the phase of a worker at rest.
    pub fn is_idle(&self) -> (yes: bool)
        ensures
            yes == (self is Idle),
    {
        match self {
            Phase::Idle => true,
            _ => false,
        }
    }
}

/// What one action of a worker brought about.
#[derive(Clone, Copy, Debug, PartialEq, Eq)]
pub enum Progress<T> {
    /// The operation goes on.
    Pending,
    /// The enqueue is complete.
    Enqueued,
    /// The dequeue is complete and removed this value.
    Dequeued(T),
    /// The dequeue is complete and found the queue empty.
    Empty,
}

/// The record of one worker: its phase, the snapshots it has taken, and the
/// two hazard slots through which it tells the reclaimer what it may still
/// dereference.
#[derive(Clone, Copy, Debug, PartialEq, Eq)]
pub struct Worker<T> {
    /// The next action.
    pub phase: Phase,
    /// Snapshot of the head.
    pub head: Pointer,
    /// Snapshot of the tail.
    pub tail: Pointer,
    /// Snapshot of a successor link.
    pub next: Pointer,
    /// Enqueue: the node that is being inserted.
    pub node: usize,
    /// Enqueue: the value that is being inserted. Dequeue: the value copied
    /// out of the successor.
    pub value: Option<T>,
    /// First hazard slot: the snapshot's head or tail node.
    pub hazard0: Option<usize>,
    /// Second hazard slot: the successor whose value is read.
    pub hazard1: Option<usize>,
}

impl<T> Worker<T> {
    /// The record of a worker at rest.
    pub open spec fn idle() -> Worker<T> {
        Worker {
            phase: Phase::Idle,
            head: Pointer::null(),
            tail: Pointer::null(),
            next: Pointer::null(),
            node: 0,
            value: None,
            hazard0: None,
            hazard1: None,
        }
    }

    /// Whether one of the hazard slots names `node`.
    pub open spec fn guards(self, node: usize) -> bool {
        self.hazard0 == Some(node) || self.hazard1 == Some(node)
    }

    /// Whether one of the hazard slots names `node`.
    pub fn is_guarding(&self, node: usize) -> (yes: bool)
        ensures
            yes == self.guards(node),
    {
        same_node(self.hazard0, Some(node)) || same_node(self.hazard1, Some(node))
    }

    /// A record at rest.
    pub fn new() -> (worker: Self)
        ensures
            worker == Self::idle(),
    {
        Worker {
            phase: Phase::Idle,
            head: Pointer { pointer: None, generation: 0 },
            tail: Pointer { pointer: None, generation: 0 },
            next: Pointer { pointer: None, generation: 0 },
            node: 0,
            value: None,
            hazard0: None,
            hazard1: None,
        }
    }
}

/// The life of an arena slot.
pub enum Status {
    /// On the free list, ready to be handed out again.
    Free,
    /// Handed to the worker with this index, not yet linked.
    Pending(int),
    /// Part of the list.
    Linked,
    /// Removed from the list, not yet reclaimed.
    Retired,
}

/// One state of the system.
#[verifier::ext_equal]
pub struct State<T> {
    /// The head cell.
    pub head: Pointer,
    /// The tail cell.
    pub tail: Pointer,
    /// The arena: a node is named by its index here.
    pub nodes: Seq<Node<T>>,
    /// Slots ready for reuse.
    pub free: Seq<usize>,
    /// Slots removed from the list and awaiting reclamation.
    pub retired: Seq<usize>,
    /// One record per registered worker.
    pub workers: Seq<Worker<T>>,
    /// How many updates of tagged pointers have taken place.
    pub updates: u64,
    /// Bookkeeping: the life stage of each slot.
    pub status: Seq<Status>,
    /// Bookkeeping: for a slot that is or was linked, its position in the
    /// order in which nodes were linked, the first sentinel being number 0.
    pub serial: Seq<nat>,
    /// Bookkeeping: the list from the head node to the last node.
    pub chain: Seq<usize>,
    /// Bookkeeping: every value linked so far, in the order of linking.
    pub enqueued: Seq<T>,
    /// Bookkeeping: every value removed so far, in the order of removal.
    pub dequeued: Seq<T>,
}

impl<T> State<T> {
    /// The state of a new queue: one sentinel, no workers.
    pub open spec fn initial() -> State<T> {
        State {
            head: Pointer { pointer: Some(0usize), generation: 0 },
            tail: Pointer { pointer: Some(0usize), generation: 0 },
            nodes: seq![Node { value: None, next: Pointer::null() }],
            free: Seq::empty(),
            retired: Seq::empty(),
            workers: Seq::empty(),
            updates: 0,
            status: seq![Status::Linked],
            serial: seq![0nat],
            chain: seq![0usize],
            enqueued: Seq::empty(),
            dequeued: Seq::empty(),
        }
    }

    /// The values in the queue, oldest first: those of the linked nodes
    /// behind the head node.
    pub open spec fn contents(self) -> Seq<T> {
        Seq::new(
            (self.chain.len() - 1) as nat,
            |k: int| self.nodes[self.chain[k + 1] as int].value.unwrap(),
        )
    }

    /// Whether some worker's protection set holds `node`.
    pub open spec fn protected(self, node: usize) -> bool {
        exists|w: int| 0 <= w < self.workers.len() && #[trigger] self.workers[w].guards(node)
    }

    /// Whether worker `w` exists and has an operation in progress.
    pub open spec fn active(self, w: int) -> bool {
        0 <= w < self.workers.len() && !(self.workers[w].phase is Idle)
    }

    /// Whether worker `w` exists and is at rest.
    pub open spec fn resting(self, w: int) -> bool {
        0 <= w < self.workers.len() && self.workers[w].phase is Idle
    }

    /// The same state with the record of worker `w` replaced.
    pub open spec fn set_worker(self, w: int, worker: Worker<T>) -> State<T> {
        State { workers: self.workers.update(w, worker), ..self }
    }

    /// The update counter after an action that did or did not update a
    /// tagged pointer.
    pub open spec fn tick(self, happened: bool) -> u64 {
        if happened {
            (self.updates + 1) as u64
        } else {
            self.updates
        }
    }

    /// A new worker joins, at rest.
    pub open spec fn register(self) -> State<T> {
        State { workers: self.workers.push(Worker::idle()), ..self }
    }

    /// The test that a scan applies to a retired node to keep it.
    pub open spec fn keeps(self) -> spec_fn(usize) -> bool {
        |node: usize| self.protected(node)
    }

    /// The test that a scan applies to a retired node to free it.
    pub open spec fn frees(self) -> spec_fn(usize) -> bool {
        |node: usize| !self.protected(node)
    }

    /// `node`, just removed from the list, is handed to the reclaimer: it
    /// is dead to the queue, and its slot stays untouched until a scan
    /// finds it unprotected.
    pub open spec fn retire(self, node: usize) -> State<T> {
        State {
            status: self.status.update(node as int, Status::Retired),
            retired: self.retired.push(node),
            ..self
        }
    }

    /// The retired nodes that no worker protects move to the free list.
    /// The scan is one action: it sees the protection sets of all workers
    /// as they are at one moment.
    pub open spec fn reclaim(self) -> State<T> {
        let gone = self.retired.filter(self.frees());
        State {
            retired: self.retired.filter(self.keeps()),
            free: self.free + gone,
            status: Seq::new(
                self.status.len(),
                |i: int|
                    if gone.contains(i as usize) {
                        Status::Free
                    } else {
                        self.status[i]
                    },
            ),
            ..self
        }
    }

    /// The slot that the next allocation hands out.
    pub open spec fn next_slot(self) -> usize {
        if self.free.len() > 0 {
            self.free.last()
        } else {
            self.nodes.len() as usize
        }
    }

    /// A node holding `value` is allocated for worker `w`: a free slot is
    /// reused, its link reset to null under the next generation, or else the
    /// arena grows by one slot.
    pub open spec fn allocate(self, w: int, value: T) -> State<T> {
        if self.free.len() > 0 {
            let slot = self.free.last() as int;
            let link = Pointer {
                pointer: None,
                generation: (self.nodes[slot].next.generation + 1) as u64,
            };
            State {
                nodes: self.nodes.update(slot, Node { value: Some(value), next: link }),
                free: self.free.drop_last(),
                status: self.status.update(slot, Status::Pending(w)),
                updates: self.tick(true),
                ..self
            }
        } else {
            State {
                nodes: self.nodes.push(Node { value: Some(value), next: Pointer::null() }),
                status: self.status.push(Status::Pending(w)),
                serial: self.serial.push(0),
                ..self
            }
        }
    }

    /// The state in which the allocator looks for a slot: when the free list
    /// is empty, the retired nodes are scanned first.
    pub open spec fn replenished(self) -> State<T> {
        if self.free.len() == 0 {
            self.reclaim()
        } else {
            self
        }
    }

    /// Worker `w`, at rest, starts to enqueue `value`.
    pub open spec fn begin_enqueue(self, w: int, value: T) -> State<T> {
        let ready = self.replenished();
        ready.allocate(w, value).set_worker(
            w,
            Worker {
                phase: Phase::EnqSnapshot,
                node: ready.next_slot(),
                value: Some(value),
                ..self.workers[w]
            },
        )
    }

    /// Worker `w`, at rest, starts to dequeue.
    pub open spec fn begin_dequeue(self, w: int) -> State<T> {
        self.set_worker(w, Worker { phase: Phase::DeqSnapshot, ..self.workers[w] })
    }

    /// The tail after worker `w` tries to move it from its snapshot to
    /// `target`.
    pub open spec fn tail_moved(self, w: int, target: Option<usize>) -> Pointer {
        let me = self.workers[w];
        self.tail.swapped(me.tail.pointer, me.tail.generation, target)
    }

    /// Worker `w` tries to link its node behind the node of its tail
    /// snapshot. From the moment this succeeds the value is in the queue.
    pub open spec fn link(self, w: int) -> State<T> {
        let me = self.workers[w];
        let last = me.tail.pointer.unwrap() as int;
        if self.nodes[last].next.matches(None, me.next.generation) {
            let link = Pointer {
                pointer: Some(me.node),
                generation: (me.next.generation + 1) as u64,
            };
            State {
                nodes: self.nodes.update(last, Node { next: link, ..self.nodes[last] }),
                chain: self.chain.push(me.node),
                status: self.status.update(me.node as int, Status::Linked),
                serial: self.serial.update(
                    me.node as int,
                    self.dequeued.len() + self.chain.len(),
                ),
                enqueued: self.enqueued.push(me.value.unwrap()),
                updates: self.tick(true),
                workers: self.workers.update(w, Worker { phase: Phase::EnqSwing, ..me }),
                ..self
            }
        } else {
            self.set_worker(w, Worker { phase: Phase::EnqSnapshot, ..me })
        }
    }

    /// Worker `w` tries to move the head from its snapshot to the successor.
    /// On success the value is out of the queue and the old head node is
    /// retired.
    pub open spec fn unlink(self, w: int) -> State<T> {
        let me = self.workers[w];
        if self.head == me.head {
            State {
                head: Pointer {
                    pointer: me.next.pointer,
                    generation: (me.head.generation + 1) as u64,
                },
                chain: self.chain.subrange(1, self.chain.len() as int),
                dequeued: self.dequeued.push(me.value.unwrap()),
                updates: self.tick(true),
                workers: self.workers.update(w, Worker::idle()),
                ..self.retire(me.head.pointer.unwrap())
            }
        } else {
            self.set_worker(w, Worker { phase: Phase::DeqSnapshot, ..me })
        }
    }

    /// One action of an enqueuing worker.
    pub open spec fn enqueue_step(self, w: int) -> State<T> {
        let me = self.workers[w];
        match me.phase {
            Phase::EnqSnapshot => self.set_worker(
                w,
                Worker { tail: self.tail, phase: Phase::EnqProtect, ..me },
            ),
            Phase::EnqProtect => self.set_worker(
                w,
                Worker { hazard0: me.tail.pointer, phase: Phase::EnqValidate, ..me },
            ),
            Phase::EnqValidate => self.set_worker(
                w,
                Worker {
                    phase: if self.tail == me.tail {
                        Phase::EnqReadNext
                    } else {
                        Phase::EnqSnapshot
                    },
                    ..me
                },
            ),
            Phase::EnqReadNext => self.set_worker(
                w,
                Worker {
                    next: self.nodes[me.tail.pointer.unwrap() as int].next,
                    phase: Phase::EnqRecheck,
                    ..me
                },
            ),
            Phase::EnqRecheck => self.set_worker(
                w,
                Worker {
                    phase: if self.tail != me.tail {
                        Phase::EnqSnapshot
                    } else if me.next.pointer is None {
                        Phase::EnqLink
                    } else {
                        Phase::EnqHelp
                    },
                    ..me
                },
            ),
            Phase::EnqLink => self.link(w),
            Phase::EnqSwing => State {
                tail: self.tail_moved(w, Some(me.node)),
                updates: self.tick(self.tail == me.tail),
                workers: self.workers.update(w, Worker::idle()),
                ..self
            },
            Phase::EnqHelp => State {
                tail: self.tail_moved(w, me.next.pointer),
                updates: self.tick(self.tail == me.tail),
                workers: self.workers.update(w, Worker { phase: Phase::EnqSnapshot, ..me }),
                ..self
            },
            _ => self,
        }
    }

    /// Where a dequeuing worker goes after it has checked the head again.
    pub open spec fn dequeue_decision(self, w: int) -> Phase {
        let me = self.workers[w];
        if self.head != me.head {
            Phase::DeqSnapshot
        } else if me.head.pointer == me.tail.pointer {
            if me.next.pointer is None {
                Phase::Idle
            } else {
                Phase::DeqHelp
            }
        } else {
            Phase::DeqReadValue
        }
    }

    /// One action of a dequeuing worker.
    pub open spec fn dequeue_step(self, w: int) -> State<T> {
        let me = self.workers[w];
        match me.phase {
            Phase::DeqSnapshot => self.set_worker(
                w,
                Worker { head: self.head, phase: Phase::DeqProtect, ..me },
            ),
            Phase::DeqProtect => self.set_worker(
                w,
                Worker { hazard0: me.head.pointer, phase: Phase::DeqValidate, ..me },
            ),
            Phase::DeqValidate => self.set_worker(
                w,
                Worker {
                    phase: if self.head == me.head {
                        Phase::DeqReadTail
                    } else {
                        Phase::DeqSnapshot
                    },
                    ..me
                },
            ),
            Phase::DeqReadTail => self.set_worker(
                w,
                Worker { tail: self.tail, phase: Phase::DeqReadNext, ..me },
            ),
            Phase::DeqReadNext => self.set_worker(
                w,
                Worker {
                    next: self.nodes[me.head.pointer.unwrap() as int].next,
                    phase: Phase::DeqProtectNext,
                    ..me
                },
            ),
            Phase::DeqProtectNext => self.set_worker(
                w,
                Worker { hazard1: me.next.pointer, phase: Phase::DeqRecheck, ..me },
            ),
            Phase::DeqRecheck => if self.dequeue_decision(w) is Idle {
                self.set_worker(w, Worker::idle())
            } else {
                self.set_worker(w, Worker { phase: self.dequeue_decision(w), ..me })
            },
            Phase::DeqHelp => State {
                tail: self.tail_moved(w, me.next.pointer),
                updates: self.tick(self.tail == me.tail),
                workers: self.workers.update(w, Worker { phase: Phase::DeqSnapshot, ..me }),
                ..self
            },
            Phase::DeqReadValue => self.set_worker(
                w,
                Worker {
                    value: self.nodes[me.next.pointer.unwrap() as int].value,
                    phase: Phase::DeqSwing,
                    ..me
                },
            ),
            Phase::DeqSwing => self.unlink(w),
            _ => self,
        }
    }

    /// One action of worker `w`, whatever it is doing.
    pub open spec fn step(self, w: int) -> State<T> {
        if self.workers[w].phase.enqueuing() {
            self.enqueue_step(w)
        } else {
            self.dequeue_step(w)
        }
    }

    /// What the action of worker `w` in this state brings about.
    pub open spec fn outcome(self, w: int) -> Progress<T> {
        let me = self.workers[w];
        match me.phase {
            Phase::EnqSwing => Progress::Enqueued,
            Phase::DeqRecheck => if self.dequeue_decision(w) is Idle {
                Progress::Empty
            } else {
                Progress::Pending
            },
            Phase::DeqSwing => if self.head == me.head {
                Progress::Dequeued(me.value.unwrap())
            } else {
                Progress::Pending
            },
            _ => Progress::Pending,
        }
    }
}

} // verus!
