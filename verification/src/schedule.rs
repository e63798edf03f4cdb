//! Schedules: what holds after any interleaving of actions.
//!
//! An [`Action`] is one thing that one worker, or the reclaimer, does to
//! the queue in one atomic step. A schedule is a sequence of actions; the
//! threads of a program that shares the queue produce one, whatever the
//! scheduler does. The theorems here speak of every schedule.

use crate::model::Progress;
use crate::model::State;
use crate::pointer::Pointer;
use crate::safety::lemma_begin_dequeue_inv;
use crate::safety::lemma_begin_enqueue_inv;
use crate::safety::lemma_contents_is_backlog;
use crate::safety::lemma_initial_inv;
use crate::safety::lemma_reclaim_inv;
use crate::safety::lemma_register_inv;
use crate::safety::lemma_step_inv;
use vstd::prelude::*;

verus! {

/// One atomic step of the system.
pub enum Action<T> {
    /// A new worker joins.
    Register,
    /// The worker starts to enqueue the value.
    BeginEnqueue(int, T),
    /// The worker starts to dequeue.
    BeginDequeue(int),
    /// The worker performs the action of its phase.
    Step(int),
    /// The reclaimer scans the retired nodes.
    Reclaim,
}

impl<T> State<T> {
    /// Whether `action` can be taken in this state.
    pub open spec fn admits(self, action: Action<T>) -> bool {
        match action {
            Action::Register => true,
            Action::BeginEnqueue(w, _) => {
                &&& self.resting(w)
                &&& self.updates < u64::MAX
                &&& self.replenished().free.len() == 0 ==> self.nodes.len() < usize::MAX
            },
            Action::BeginDequeue(w) => self.resting(w),
            Action::Step(w) => self.active(w) && self.updates < u64::MAX,
            Action::Reclaim => true,
        }
    }

    /// The state after `action`.
    pub open spec fn apply(self, action: Action<T>) -> State<T> {
        match action {
            Action::Register => self.register(),
            Action::BeginEnqueue(w, value) => self.begin_enqueue(w, value),
            Action::BeginDequeue(w) => self.begin_dequeue(w),
            Action::Step(w) => self.step(w),
            Action::Reclaim => self.reclaim(),
        }
    }

    /// Whether the whole schedule can be run from this state.
    pub open spec fn admits_all(self, schedule: Seq<Action<T>>) -> bool
        decreases schedule.len(),
    {
        schedule.len() > 0 ==> self.admits_all(schedule.drop_last()) && self.run(
            schedule.drop_last(),
        ).admits(schedule.last())
    }

    /// The state after the schedule.
    pub open spec fn run(self, schedule: Seq<Action<T>>) -> State<T>
        decreases schedule.len(),
    {
        if schedule.len() == 0 {
            self
        } else {
            self.run(schedule.drop_last()).apply(schedule.last())
        }
    }

    /// The value that `action` hands to a caller, if it completes a
    /// dequeue that found one.
    pub open spec fn delivers(self, action: Action<T>) -> Option<T> {
        match action {
            Action::Step(w) => match self.outcome(w) {
                Progress::Dequeued(value) => Some(value),
                _ => None,
            },
            _ => None,
        }
    }

    /// The value that `action` puts into the queue, if it is the linking
    /// step of an enqueue and succeeds.
    pub open spec fn accepts(self, action: Action<T>) -> Option<T> {
        match action {
            Action::Step(w) => if self.workers[w].phase is EnqLink && self.step(w).workers[w].phase
                is EnqSwing {
                self.workers[w].value
            } else {
                None
            },
            _ => None,
        }
    }
}

/// Whether a cell is unchanged or has moved on by exactly one generation.
pub open spec fn renewed(before: Pointer, after: Pointer) -> bool {
    after == before || after.generation == before.generation + 1
}

/// Every action keeps the invariant.
pub proof fn lemma_apply_inv<T>(s: State<T>, action: Action<T>)
    requires
        s.inv(),
        s.admits(action),
    ensures
        s.apply(action).inv(),
{
    match action {
        Action::Register => lemma_register_inv(s),
        Action::BeginEnqueue(w, value) => lemma_begin_enqueue_inv(s, w, value),
        Action::BeginDequeue(w) => lemma_begin_dequeue_inv(s, w),
        Action::Step(w) => lemma_step_inv(s, w),
        Action::Reclaim => lemma_reclaim_inv(s),
    }
}

/// The invariant holds after every schedule that starts from a state in
/// which it holds.
pub proof fn lemma_run_inv<T>(s: State<T>, schedule: Seq<Action<T>>)
    requires
        s.inv(),
        s.admits_all(schedule),
    ensures
        s.run(schedule).inv(),
    decreases schedule.len(),
{
    if schedule.len() > 0 {
        lemma_run_inv(s, schedule.drop_last());
        lemma_apply_inv(s.run(schedule.drop_last()), schedule.last());
    }
}

/// Every state that a new queue can reach satisfies the invariant.
pub proof fn lemma_reachable_inv<T>(schedule: Seq<Action<T>>)
    requires
        State::<T>::initial().admits_all(schedule),
    ensures
        State::<T>::initial().run(schedule).inv(),
{
    lemma_initial_inv::<T>();
    lemma_run_inv(State::<T>::initial(), schedule);
}

/// An action changes the record of what was enqueued and dequeued only by
/// appending the value it puts in or the value it hands out, and the
/// value handed out is the front of the queue.
pub proof fn lemma_apply_records<T>(s: State<T>, action: Action<T>)
    requires
        s.inv(),
        s.admits(action),
    ensures
        s.apply(action).enqueued == match s.accepts(action) {
            Some(value) => s.enqueued.push(value),
            None => s.enqueued,
        },
        s.apply(action).dequeued == match s.delivers(action) {
            Some(value) => s.dequeued.push(value),
            None => s.dequeued,
        },
        s.delivers(action) matches Some(value) ==> s.contents().len() > 0 && value
            == s.contents()[0],
        s.accepts(action) is Some ==> s.delivers(action) is None,
{
    lemma_apply_inv(s, action);
    lemma_contents_is_backlog(s);
    lemma_contents_is_backlog(s.apply(action));
    match action {
        Action::Step(w) => {
            assert(s.worker_inv(w));
            if s.workers[w].phase is DeqSwing && s.head == s.workers[w].head {
                assert(s.apply(action).dequeued == s.dequeued.push(
                    s.workers[w].value.unwrap(),
                ));
                assert(s.apply(action).dequeued.len() == s.dequeued.len() + 1);
                assert(s.contents().len() > 0);
                assert(s.apply(action).dequeued[s.dequeued.len() as int]
                    == s.apply(action).enqueued[s.dequeued.len() as int]);
            }
        },
        _ => {},
    }
}

/// Values leave the queue in the order in which they entered it: what was
/// dequeued is always the front part of what was enqueued, and the queue
/// holds the rest in the same order.
pub proof fn lemma_order<T>(s: State<T>)
    requires
        s.inv(),
    ensures
        s.dequeued.len() <= s.enqueued.len(),
        s.dequeued =~= s.enqueued.take(s.dequeued.len() as int),
        s.contents() =~= s.enqueued.skip(s.dequeued.len() as int),
{
    lemma_contents_is_backlog(s);
}

/// No value is lost or duplicated: the values enqueued are, as a multiset,
/// the values dequeued together with those still in the queue. Once the
/// queue has drained, the two multisets are equal.
pub proof fn lemma_conservation<T>(s: State<T>)
    requires
        s.inv(),
    ensures
        s.enqueued.to_multiset() =~= s.dequeued.to_multiset().add(s.contents().to_multiset()),
        s.contents().len() == 0 ==> s.enqueued.to_multiset() =~= s.dequeued.to_multiset(),
{
    lemma_contents_is_backlog(s);
    vstd::seq_lib::lemma_multiset_commutative(s.dequeued, s.contents());
    if s.contents().len() == 0 {
        assert(s.enqueued =~= s.dequeued);
    }
}

/// After any interleaving of operations on a new queue, the values handed
/// out are a front part of the values put in, in the same order, and
/// nothing is lost or duplicated.
pub proof fn lemma_every_schedule_conserves<T>(schedule: Seq<Action<T>>)
    requires
        State::<T>::initial().admits_all(schedule),
    ensures
        ({
            let end = State::<T>::initial().run(schedule);
            &&& end.dequeued =~= end.enqueued.take(end.dequeued.len() as int)
            &&& end.enqueued.to_multiset() =~= end.dequeued.to_multiset().add(
                end.contents().to_multiset(),
            )
            &&& end.contents().len() == 0 ==> end.enqueued.to_multiset()
                =~= end.dequeued.to_multiset()
        }),
{
    lemma_reachable_inv(schedule);
    lemma_order(State::<T>::initial().run(schedule));
    lemma_conservation(State::<T>::initial().run(schedule));
}

/// Every update of a tagged pointer raises its generation by exactly one,
/// and a slot that is handed out again carries a higher generation than
/// it had in its earlier life.
pub proof fn lemma_cells_versioned<T>(s: State<T>, action: Action<T>)
    requires
        s.inv(),
        s.admits(action),
    ensures
        renewed(s.head, s.apply(action).head),
        renewed(s.tail, s.apply(action).tail),
        s.nodes.len() <= s.apply(action).nodes.len(),
        forall|i: int|
            0 <= i < s.nodes.len() ==> renewed(
                s.nodes[i].next,
                #[trigger] s.apply(action).nodes[i].next,
            ),
        forall|i: int|
            0 <= i < s.nodes.len() && (#[trigger] s.apply(action).status[i]) is Pending && !(
            s.status[i] is Pending) ==> s.apply(action).nodes[i].next.generation
                == s.nodes[i].next.generation + 1,
{
    let t = s.apply(action);
    match action {
        Action::BeginEnqueue(w, value) => {
            let ready = s.replenished();
            if s.free.len() == 0 {
                lemma_reclaim_inv(s);
            }
            if ready.free.len() > 0 {
                assert(ready.free[ready.free.len() - 1] == ready.free.last());
            }
            assert forall|i: int|
                0 <= i < s.nodes.len() && (#[trigger] t.status[i]) is Pending && !(s.status[i]
                    is Pending) implies t.nodes[i].next.generation == s.nodes[i].next.generation
                + 1 by {
                if ready.free.len() == 0 || i != ready.free.last() {
                    assert(ready.status[i] == t.status[i]);
                }
            }
        },
        Action::Step(w) => {
            assert(s.worker_inv(w));
        },
        _ => {},
    }
}

/// A link succeeds only behind the last node of the list, and only with
/// the generation that the worker read: a snapshot that has been
/// overtaken cannot make it succeed.
pub proof fn lemma_link_targets_last<T>(s: State<T>, w: int)
    requires
        s.inv(),
        0 <= w < s.workers.len(),
        s.workers[w].phase is EnqLink,
        s.link(w).workers[w].phase is EnqSwing,
    ensures
        s.workers[w].tail.pointer == Some(s.chain.last()),
        s.tail.pointer == Some(s.chain.last()),
        s.nodes[s.chain.last() as int].next == s.workers[w].next,
{
    let me = s.workers[w];
    let last = me.tail.pointer.unwrap() as int;
    let n = s.chain.len() as int;
    assert(s.worker_inv(w));
    assert(s.status[last] is Linked);
    let k = s.serial[last] - s.dequeued.len();
    assert(s.chain[k] == last);
    assert(k == n - 1);
    if n >= 2 {
        assert(s.serial[s.chain[n - 2] as int] == s.dequeued.len() + n - 2);
    }
}

/// The head moves only from the first node of the list to the second, and
/// only if it still has the generation that the worker read.
pub proof fn lemma_unlink_targets_first<T>(s: State<T>, w: int)
    requires
        s.inv(),
        0 <= w < s.workers.len(),
        s.workers[w].phase is DeqSwing,
        s.unlink(w).workers[w].phase is Idle,
    ensures
        s.head == s.workers[w].head,
        s.chain.len() >= 2,
        s.workers[w].head.pointer == Some(s.chain[0]),
        s.workers[w].next.pointer == Some(s.chain[1]),
{
    assert(s.worker_inv(w));
    assert(s.chain[s.chain.len() - 1] == s.chain.last());
}

/// No action frees a node that some worker protects: a slot becomes free
/// only if it was retired and outside every protection set when the action
/// began.
pub proof fn lemma_frees_only_unprotected<T>(s: State<T>, action: Action<T>)
    requires
        s.inv(),
        s.admits(action),
    ensures
        forall|i: int|
            0 <= i < s.nodes.len() && !(s.status[i] is Free) && (#[trigger] s.apply(
                action,
            ).status[i]) is Free ==> {
                &&& action is Reclaim || action is BeginEnqueue
                &&& s.status[i] is Retired
                &&& !s.protected(i as usize)
            },
{
    let t = s.apply(action);
    match action {
        Action::BeginEnqueue(w, value) => {
            let ready = s.replenished();
            if s.free.len() == 0 {
                lemma_reclaim_inv(s);
            }
            if ready.free.len() > 0 {
                assert(ready.free[ready.free.len() - 1] == ready.free.last());
            }
            assert forall|i: int|
                0 <= i < s.nodes.len() && !(s.status[i] is Free) && (#[trigger] t.status[i])
                    is Free implies s.status[i] is Retired && !s.protected(i as usize) by {
                assert(ready.status[i] is Free);
            }
        },
        Action::Step(w) => {
            assert(s.worker_inv(w));
        },
        Action::Reclaim => {
            lemma_reclaim_inv(s);
        },
        _ => {},
    }
}

/// Whenever a worker is about to read or update a node through a pointer
/// it has taken from shared memory, that node has not been freed.
pub proof fn lemma_dereference_safe<T>(s: State<T>, w: int)
    requires
        s.inv(),
        0 <= w < s.workers.len(),
    ensures
        s.workers[w].phase is EnqReadNext || s.workers[w].phase is EnqLink ==> s.guarded(
            s.workers[w].tail.pointer,
        ) && s.protected(s.workers[w].tail.pointer.unwrap()),
        s.workers[w].phase is DeqReadNext ==> s.guarded(s.workers[w].head.pointer)
            && s.protected(s.workers[w].head.pointer.unwrap()),
        s.workers[w].phase is DeqReadValue ==> s.guarded(s.workers[w].next.pointer)
            && s.protected(s.workers[w].next.pointer.unwrap()),
{
    let me = s.workers[w];
    assert(s.worker_inv(w));
    if me.hazard0 is Some {
        assert(me.guards(me.hazard0.unwrap()));
    }
    if me.hazard1 is Some {
        assert(me.guards(me.hazard1.unwrap()));
    }
}

} // verus!
