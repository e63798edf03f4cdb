//! Progress: a worker that runs alone finishes its operation.
//!
//! The queue is lock-free, not wait-free: other workers can make a worker
//! retry without bound. What is bounded is the number of actions a worker
//! needs once the others stand still, and [`State::budget`] is such a bound.

use crate::model::Phase;
use crate::model::State;
use vstd::prelude::*;

verus! {

/// No operation that runs alone takes this many actions, and none updates
/// this many tagged pointers.
pub const HEADROOM: u64 = 40;

impl Phase {
    /// An upper bound on the actions left in the current attempt.
    pub open spec fn rank(self) -> int {
        match self {
            Phase::Idle => 0,
            Phase::EnqSnapshot => 8,
            Phase::EnqProtect => 7,
            Phase::EnqValidate => 6,
            Phase::EnqReadNext => 5,
            Phase::EnqRecheck => 4,
            Phase::EnqLink => 3,
            Phase::EnqHelp => 3,
            Phase::EnqSwing => 1,
            Phase::DeqSnapshot => 10,
            Phase::DeqProtect => 9,
            Phase::DeqValidate => 8,
            Phase::DeqReadTail => 7,
            Phase::DeqReadNext => 6,
            Phase::DeqProtectNext => 5,
            Phase::DeqRecheck => 4,
            Phase::DeqHelp => 3,
            Phase::DeqReadValue => 3,
            Phase::DeqSwing => 2,
        }
    }
}

impl<T> State<T> {
    /// How many nodes the tail is behind the last node: 0 or 1.
    pub open spec fn lag(self) -> int {
        if self.tail.pointer == Some(self.chain.last()) {
            0
        } else {
            1
        }
    }

    /// Whether the current attempt of worker `w` is bound to fail because
    /// what it has read is out of date.
    pub open spec fn stale(self, w: int) -> bool {
        let me = self.workers[w];
        match me.phase {
            Phase::EnqProtect | Phase::EnqValidate | Phase::EnqReadNext | Phase::EnqHelp
            | Phase::DeqHelp => self.tail != me.tail,
            Phase::EnqRecheck | Phase::EnqLink => self.tail != me.tail
                || self.nodes[me.tail.pointer.unwrap() as int].next != me.next,
            Phase::DeqProtect | Phase::DeqValidate | Phase::DeqReadTail | Phase::DeqReadValue
            | Phase::DeqSwing => self.head != me.head,
            Phase::DeqReadNext | Phase::DeqProtectNext | Phase::DeqRecheck => self.head != me.head
                || self.tail != me.tail,
            _ => false,
        }
    }

    /// Whether the action that worker `w` is about to take compares a cell
    /// with a snapshot and finds them different.
    pub open spec fn thwarted(self, w: int) -> bool {
        let me = self.workers[w];
        match me.phase {
            Phase::EnqValidate | Phase::EnqRecheck | Phase::EnqHelp | Phase::EnqSwing
            | Phase::DeqHelp => self.tail != me.tail,
            Phase::EnqLink => !self.nodes[me.tail.pointer.unwrap() as int].next.matches(
                None,
                me.next.generation,
            ),
            Phase::DeqValidate | Phase::DeqRecheck | Phase::DeqSwing => self.head != me.head,
            _ => false,
        }
    }

    /// Whether the cell that worker `w` is about to compare has been
    /// updated since the worker read it.
    pub open spec fn overtaken(self, w: int) -> bool {
        let me = self.workers[w];
        match me.phase {
            Phase::EnqValidate | Phase::EnqRecheck | Phase::EnqHelp | Phase::EnqSwing
            | Phase::DeqHelp => me.tail.generation < self.tail.generation,
            Phase::EnqLink => me.next.generation < self.nodes[me.tail.pointer.unwrap() as int].next.generation,
            Phase::DeqValidate | Phase::DeqRecheck | Phase::DeqSwing => me.head.generation
                < self.head.generation,
            _ => false,
        }
    }

    /// An upper bound on the number of actions that worker `w` needs to
    /// finish its operation if no other worker acts.
    pub open spec fn budget(self, w: int) -> nat {
        let phase = self.workers[w].phase;
        if phase is Idle || phase is EnqSwing {
            phase.rank() as nat
        } else {
            (12 * (self.lag() + if self.stale(w) {
                1int
            } else {
                0int
            }) + phase.rank()) as nat
        }
    }

    /// The state after `count` consecutive actions of worker `w`.
    pub open spec fn stepped(self, w: int, count: nat) -> State<T>
        decreases count,
    {
        if count == 0 {
            self
        } else {
            self.stepped(w, (count - 1) as nat).step(w)
        }
    }

    /// Whether `w` is the worker that an operation run to completion
    /// uses: the first worker at rest, or a new one if all are busy.
    pub open spec fn picks(self, w: int) -> bool {
        &&& 0 <= w <= self.workers.len()
        &&& w < self.workers.len() ==> self.resting(w)
        &&& forall|x: int| 0 <= x < w ==> self.active(x)
    }

    /// The state in which worker `w` exists: this one, or this one with a
    /// new worker.
    pub open spec fn joined(self, w: int) -> State<T> {
        if w < self.workers.len() {
            self
        } else {
            self.register()
        }
    }

    /// Whether `after` is this state after one enqueue of `value` that ran
    /// from its first action to its last with no action of another worker
    /// in between.
    pub open spec fn enqueues_alone(self, value: T, after: State<T>) -> bool {
        exists|w: int, count: nat|
            self.picks(w) && after.resting(w) && after == #[trigger] self.joined(w).begin_enqueue(
                w,
                value,
            ).stepped(w, count)
    }

    /// Whether `after` is this state after one dequeue that ran from its
    /// first action to its last with no action of another worker in
    /// between.
    pub open spec fn dequeues_alone(self, after: State<T>) -> bool {
        exists|w: int, count: nat|
            self.picks(w) && after.resting(w) && after == #[trigger] self.joined(w).begin_dequeue(
                w,
            ).stepped(w, count)
    }

    /// Whether everything that dequeuing worker `w` has read is still what
    /// shared memory holds.
    pub open spec fn current(self, w: int) -> bool {
        let me = self.workers[w];
        let stage = me.phase.stage();
        &&& stage >= 2 ==> me.head == self.head
        &&& stage >= 5 ==> me.tail == self.tail
        &&& stage >= 6 ==> me.next == self.nodes[me.head.pointer.unwrap() as int].next
    }
}

/// The budget never exceeds 34 actions.
pub proof fn lemma_budget_bounded<T>(s: State<T>, w: int)
    ensures
        s.budget(w) <= 34,
{
}

/// Every action of a worker lowers its own budget, and updates at most one
/// tagged pointer.
pub proof fn lemma_step_lowers_budget<T>(s: State<T>, w: int)
    requires
        s.inv(),
        s.active(w),
        s.updates < u64::MAX,
    ensures
        s.step(w).budget(w) < s.budget(w),
        s.updates <= s.step(w).updates <= s.updates + 1,
{
    let me = s.workers[w];
    let t = s.step(w);
    let n = s.chain.len() as int;
    assert(s.worker_inv(w));
    if me.phase is EnqHelp || me.phase is DeqHelp {
        if s.tail == me.tail {
            assert(s.chain[n - 1] == s.chain.last());
            assert(n >= 2 && s.tail.pointer == Some(s.chain[n - 2]));
            assert(s.nodes[s.chain[n - 2] as int].next.pointer == Some(s.chain[n - 1]));
            assert(s.serial[s.chain[n - 2] as int] != s.serial[s.chain[n - 1] as int]);
            assert(s.lag() == 1);
            assert(t.lag() == 0);
        }
    }
}

/// A comparison fails only because the cell was updated in the meantime:
/// whenever a worker has to retry, an update of another worker went
/// through. A worker goes back to the start of its operation only after
/// such a failure or after it has moved a lagging tail itself.
pub proof fn lemma_retry_means_overtaken<T>(s: State<T>, w: int)
    requires
        s.inv(),
        s.active(w),
    ensures
        s.thwarted(w) ==> s.overtaken(w),
        s.workers[w].phase.stage() >= 2 && (s.step(w).workers[w].phase is EnqSnapshot || s.step(
            w,
        ).workers[w].phase is DeqSnapshot) ==> s.thwarted(w) || s.workers[w].phase is EnqHelp
            || s.workers[w].phase is DeqHelp,
{
    assert(s.worker_inv(w));
}

/// A dequeuing worker whose reads are current stays so by its own actions,
/// and it reports an empty queue only when the queue is empty.
pub proof fn lemma_dequeue_stays_current<T>(s: State<T>, w: int)
    requires
        s.inv(),
        s.active(w),
        s.workers[w].phase.dequeuing(),
        s.current(w),
        s.updates < u64::MAX,
    ensures
        s.step(w).workers[w].phase is Idle || s.step(w).current(w),
        s.workers[w].phase is DeqRecheck && s.step(w).workers[w].phase is Idle
            ==> s.contents().len() == 0,
{
    let me = s.workers[w];
    let t = s.step(w);
    assert(s.worker_inv(w));
    if me.phase is DeqRecheck && t.workers[w].phase is Idle {
        assert(s.chain[0] == me.head.pointer.unwrap());
        if s.chain.len() >= 2 {
            assert(s.nodes[s.chain[0] as int].next.pointer == Some(s.chain[1]));
        }
    }
}

} // verus!
