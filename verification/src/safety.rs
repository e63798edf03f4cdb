//! What holds in every reachable state of the queue, and why each action
//! keeps it so.

use crate::model::Phase;
use crate::model::State;
use crate::model::Status;
use crate::model::Worker;
use vstd::prelude::*;

verus! {

impl Phase {
    /// How far into its round a worker is: the actions of one attempt are
    /// numbered from 1.
    pub open spec fn stage(self) -> int {
        match self {
            Phase::Idle => 0,
            Phase::EnqSnapshot => 1,
            Phase::EnqProtect => 2,
            Phase::EnqValidate => 3,
            Phase::EnqReadNext => 4,
            Phase::EnqRecheck => 5,
            Phase::EnqLink => 6,
            Phase::EnqHelp => 7,
            Phase::EnqSwing => 8,
            Phase::DeqSnapshot => 1,
            Phase::DeqProtect => 2,
            Phase::DeqValidate => 3,
            Phase::DeqReadTail => 4,
            Phase::DeqReadNext => 5,
            Phase::DeqProtectNext => 6,
            Phase::DeqRecheck => 7,
            Phase::DeqHelp => 8,
            Phase::DeqReadValue => 9,
            Phase::DeqSwing => 10,
        }
    }
}

impl<T> State<T> {
    /// `pointer` names a slot of the arena.
    pub open spec fn in_arena(self, pointer: Option<usize>) -> bool {
        pointer matches Some(slot) && slot < self.nodes.len()
    }

    /// `pointer` names a node that is linked or retired: one that has not
    /// been handed back for reuse.
    pub open spec fn guarded(self, pointer: Option<usize>) -> bool {
        pointer matches Some(slot) && slot < self.nodes.len() && (self.status[slot as int] is Linked
            || self.status[slot as int] is Retired)
    }

    /// The bookkeeping describes the arena: the chain consists of linked
    /// slots numbered consecutively, and every linked slot is in the chain.
    pub open spec fn shaped(self) -> bool {
        &&& self.nodes.len() <= usize::MAX
        &&& self.status.len() == self.nodes.len()
        &&& self.serial.len() == self.nodes.len()
        &&& self.chain.len() >= 1
        &&& forall|k: int|
            0 <= k < self.chain.len() ==> {
                &&& (#[trigger] self.chain[k]) < self.nodes.len()
                &&& self.status[self.chain[k] as int] is Linked
                &&& self.serial[self.chain[k] as int] == self.dequeued.len() + k
            }
        &&& forall|i: int|
            0 <= i < self.nodes.len() && (#[trigger] self.status[i]) is Linked ==> {
                &&& 0 <= self.serial[i] - self.dequeued.len() < self.chain.len()
                &&& self.chain[self.serial[i] - self.dequeued.len()] == i
            }
    }

    /// The links of the arena follow the chain, the last node's link is
    /// null, and the nodes behind the head node carry the values that were
    /// enqueued and not yet dequeued, in order.
    pub open spec fn linked(self) -> bool {
        &&& forall|k: int|
            0 <= k < self.chain.len() - 1 ==> self.nodes[(#[trigger] self.chain[k]) as int].next.pointer
                == Some(self.chain[k + 1])
        &&& self.nodes[self.chain.last() as int].next.pointer is None
        &&& forall|k: int|
            1 <= k < self.chain.len() ==> self.nodes[(#[trigger] self.chain[k]) as int].value
                == Some(self.enqueued[self.dequeued.len() + k - 1])
    }

    /// The head refers to the first node of the chain, and the tail to the
    /// last node or to the one before it.
    pub open spec fn anchored(self) -> bool {
        &&& self.head.pointer == Some(self.chain[0])
        &&& (self.tail.pointer == Some(self.chain.last()) || (self.chain.len() >= 2
            && self.tail.pointer == Some(self.chain[self.chain.len() - 2])))
    }

    /// What was dequeued is the front part of what was enqueued, and the
    /// rest is what the chain holds.
    pub open spec fn recorded(self) -> bool {
        &&& self.enqueued.len() == self.dequeued.len() + self.chain.len() - 1
        &&& forall|k: int|
            0 <= k < self.dequeued.len() ==> #[trigger] self.dequeued[k] == self.enqueued[k]
    }

    /// The free list and the retired list hold distinct slots of the right
    /// status, and a retired node still has its successor.
    pub open spec fn listed(self) -> bool {
        &&& forall|k: int|
            0 <= k < self.free.len() ==> (#[trigger] self.free[k]) < self.nodes.len()
                && self.status[self.free[k] as int] is Free
        &&& self.free.no_duplicates()
        &&& forall|k: int|
            0 <= k < self.retired.len() ==> (#[trigger] self.retired[k]) < self.nodes.len()
                && self.status[self.retired[k] as int] is Retired
        &&& self.retired.no_duplicates()
        &&& forall|i: int|
            0 <= i < self.nodes.len() && (#[trigger] self.status[i]) is Retired
                ==> self.nodes[i].next.pointer is Some
    }

    /// No generation is ahead of the update counter.
    pub open spec fn clocked(self) -> bool {
        &&& self.head.generation <= self.updates
        &&& self.tail.generation <= self.updates
        &&& forall|i: int|
            0 <= i < self.nodes.len() ==> (#[trigger] self.nodes[i]).next.generation
                <= self.updates
    }

    /// The node that worker `w` is inserting is its own, unlinked, and
    /// carries a value.
    pub open spec fn holds_pending(self, w: int) -> bool {
        let me = self.workers[w];
        &&& me.node < self.nodes.len()
        &&& self.status[me.node as int] == Status::Pending(w)
        &&& self.nodes[me.node as int].next.pointer is None
        &&& self.nodes[me.node as int].value == me.value
        &&& me.value is Some
    }

    /// What an enqueuing worker can rely on in each phase.
    pub open spec fn enqueuer_inv(self, w: int) -> bool {
        let me = self.workers[w];
        let stage = me.phase.stage();
        let last = me.tail.pointer.unwrap() as int;
        &&& !(me.phase is EnqSwing) ==> self.holds_pending(w)
        &&& stage >= 2 ==> self.in_arena(me.tail.pointer)
        &&& stage >= 2 ==> self.tail.follows(me.tail)
        &&& stage >= 3 ==> me.hazard0 == me.tail.pointer
        &&& stage >= 4 ==> self.guarded(me.tail.pointer)
        &&& 4 <= stage <= 7 ==> self.serial[last] <= self.serial[self.tail.pointer.unwrap() as int]
        &&& 5 <= stage <= 7 ==> self.nodes[last].next.follows(me.next)
        &&& 5 <= stage <= 7 ==> (me.next.pointer is Some ==> self.nodes[last].next.pointer
            == me.next.pointer)
        &&& me.phase is EnqLink ==> me.next.pointer is None
        &&& me.phase is EnqHelp ==> me.next.pointer is Some
        &&& me.phase is EnqSwing ==> self.nodes[last].next.pointer == Some(me.node)
    }

    /// What a dequeuing worker can rely on in each phase.
    pub open spec fn dequeuer_inv(self, w: int) -> bool {
        let me = self.workers[w];
        let stage = me.phase.stage();
        let first = me.head.pointer.unwrap() as int;
        let second = me.next.pointer.unwrap() as int;
        &&& stage >= 2 ==> self.in_arena(me.head.pointer)
        &&& stage >= 2 ==> self.head.follows(me.head)
        &&& stage >= 3 ==> me.hazard0 == me.head.pointer
        &&& stage >= 4 ==> self.guarded(me.head.pointer)
        &&& stage >= 5 ==> self.in_arena(me.tail.pointer)
        &&& stage >= 5 ==> self.tail.follows(me.tail)
        &&& stage >= 5 ==> (self.head == me.head && me.tail.pointer != me.head.pointer
            ==> self.tail.pointer != self.head.pointer)
        &&& stage >= 6 ==> self.nodes[first].next.follows(me.next)
        &&& stage >= 6 ==> (me.next.pointer is Some ==> self.nodes[first].next.pointer
            == me.next.pointer)
        &&& stage >= 6 ==> (self.head == me.head && me.next.pointer is None ==> me.tail.pointer
            == me.head.pointer)
        &&& stage >= 7 ==> me.hazard1 == me.next.pointer
        &&& me.phase is DeqHelp ==> me.tail.pointer == me.head.pointer && me.next.pointer is Some
        &&& stage >= 9 ==> {
            &&& me.tail.pointer != me.head.pointer
            &&& self.guarded(me.next.pointer)
            &&& self.nodes[second].value is Some
        }
        &&& me.phase is DeqSwing ==> me.value == self.nodes[second].value
    }

    /// What holds of worker `w` whatever it is doing.
    pub open spec fn worker_inv(self, w: int) -> bool {
        let me = self.workers[w];
        &&& me.head.generation <= self.updates
        &&& me.tail.generation <= self.updates
        &&& me.next.generation <= self.updates
        &&& me.phase.enqueuing() ==> self.enqueuer_inv(w)
        &&& me.phase.dequeuing() ==> self.dequeuer_inv(w)
    }

    /// The invariant of the queue.
    pub open spec fn inv(self) -> bool {
        &&& self.shaped()
        &&& self.linked()
        &&& self.anchored()
        &&& self.recorded()
        &&& self.listed()
        &&& self.clocked()
        &&& forall|w: int| 0 <= w < self.workers.len() ==> #[trigger] self.worker_inv(w)
    }
}

/// A new queue satisfies the invariant.
pub proof fn lemma_initial_inv<T>()
    ensures
        State::<T>::initial().inv(),
        State::<T>::initial().contents() =~= Seq::<T>::empty(),
{
}

/// Registering a worker keeps the invariant.
pub proof fn lemma_register_inv<T>(s: State<T>)
    requires
        s.inv(),
    ensures
        s.register().inv(),
{
    let t = s.register();
    assert forall|w: int| 0 <= w < t.workers.len() implies #[trigger] t.worker_inv(w) by {
        if w < s.workers.len() {
            assert(s.worker_inv(w));
        }
    }
}

/// Starting a dequeue keeps the invariant.
pub proof fn lemma_begin_dequeue_inv<T>(s: State<T>, w: int)
    requires
        s.inv(),
        s.resting(w),
    ensures
        s.begin_dequeue(w).inv(),
{
    let t = s.begin_dequeue(w);
    assert forall|x: int| 0 <= x < t.workers.len() implies #[trigger] t.worker_inv(x) by {
        assert(s.worker_inv(x));
    }
}


/// Replacing the record of one worker keeps the invariant if the new record
/// meets that worker's part of it.
pub proof fn lemma_set_worker_inv<T>(s: State<T>, w: int, me: Worker<T>)
    requires
        s.inv(),
        0 <= w < s.workers.len(),
        s.set_worker(w, me).worker_inv(w),
    ensures
        s.set_worker(w, me).inv(),
{
    let t = s.set_worker(w, me);
    assert forall|x: int| 0 <= x < t.workers.len() implies #[trigger] t.worker_inv(x) by {
        if x != w {
            assert(s.worker_inv(x));
        }
    }
}

/// The actions of an enqueue that only read shared memory, or write the
/// worker's own hazard slot, keep the invariant.
pub proof fn lemma_enqueue_local_inv<T>(s: State<T>, w: int)
    requires
        s.inv(),
        0 <= w < s.workers.len(),
        1 <= s.workers[w].phase.stage() <= 5,
        s.workers[w].phase.enqueuing(),
    ensures
        s.enqueue_step(w).inv(),
{
    let t = s.enqueue_step(w);
    assert(s.worker_inv(w));
    assert(t.workers[w].phase.enqueuing());
    assert(t.enqueuer_inv(w));
    lemma_set_worker_inv(s, w, t.workers[w]);
    assert(t == s.set_worker(w, t.workers[w]));
}

/// The actions of a dequeue that only read shared memory, or write the
/// worker's own hazard slots, keep the invariant.
pub proof fn lemma_dequeue_local_inv<T>(s: State<T>, w: int)
    requires
        s.inv(),
        0 <= w < s.workers.len(),
        s.workers[w].phase.dequeuing(),
        !(s.workers[w].phase is DeqHelp),
        !(s.workers[w].phase is DeqSwing),
    ensures
        s.dequeue_step(w).inv(),
{
    let t = s.dequeue_step(w);
    assert(s.worker_inv(w));
    assert(t.worker_inv(w));
    lemma_set_worker_inv(s, w, t.workers[w]);
    assert(t == s.set_worker(w, t.workers[w]));
}

/// Moving the tail forward, whether to help or to finish an enqueue, keeps
/// the invariant: the compare-and-swap succeeds only if the tail is still
/// the node of the snapshot, and the target is then the last node.
pub proof fn lemma_move_tail_inv<T>(s: State<T>, w: int)
    requires
        s.inv(),
        0 <= w < s.workers.len(),
        s.workers[w].phase is EnqSwing || s.workers[w].phase is EnqHelp
            || s.workers[w].phase is DeqHelp,
        s.updates < u64::MAX,
    ensures
        s.step(w).inv(),
{
    let me = s.workers[w];
    let t = s.step(w);
    let n = s.chain.len() as int;
    assert(s.worker_inv(w));
    if s.tail == me.tail {
        assert(s.chain[n - 1] == s.chain.last());
        assert(n >= 2 && s.tail.pointer == Some(s.chain[n - 2]));
        assert(s.nodes[s.chain[n - 2] as int].next.pointer == Some(s.chain[n - 1]));
        assert(t.tail.pointer == Some(s.chain[n - 1]));
        assert(s.chain[0] != s.chain[n - 1]);
    }
    assert forall|x: int| 0 <= x < t.workers.len() implies #[trigger] t.worker_inv(x) by {
        assert(s.worker_inv(x));
    }
}

/// Linking a node keeps the invariant: the compare-and-swap succeeds only
/// on the null link of the last node, and the tail is then that node.
pub proof fn lemma_link_inv<T>(s: State<T>, w: int)
    requires
        s.inv(),
        0 <= w < s.workers.len(),
        s.workers[w].phase is EnqLink,
        s.updates < u64::MAX,
    ensures
        s.link(w).inv(),
{
    let me = s.workers[w];
    let t = s.link(w);
    let n = s.chain.len() as int;
    let last = me.tail.pointer.unwrap() as int;
    assert(s.worker_inv(w));
    if s.nodes[last].next.matches(None, me.next.generation) {
        assert(s.status[last] is Linked);
        let k = s.serial[last] - s.dequeued.len();
        assert(s.chain[k] == last);
        assert(k == n - 1);
        assert(s.chain[n - 1] == s.chain.last());
        assert(s.tail.pointer == Some(s.chain[n - 1])) by {
            if n >= 2 {
                assert(s.serial[s.chain[n - 2] as int] == s.dequeued.len() + n - 2);
            }
        }
        assert(t.chain.len() == n + 1);
        assert forall|j: int| 0 <= j < t.chain.len() implies {
            &&& (#[trigger] t.chain[j]) < t.nodes.len()
            &&& t.status[t.chain[j] as int] is Linked
            &&& t.serial[t.chain[j] as int] == t.dequeued.len() + j
        } by {
            if j < n {
                assert(s.chain[j] == t.chain[j]);
            }
        }
        assert forall|i: int|
            0 <= i < t.nodes.len() && (#[trigger] t.status[i]) is Linked implies {
            &&& 0 <= t.serial[i] - t.dequeued.len() < t.chain.len()
            &&& t.chain[t.serial[i] - t.dequeued.len()] == i
        } by {
            if i != me.node {
                assert(s.status[i] is Linked);
            }
        }
        assert forall|j: int| 0 <= j < t.chain.len() - 1 implies t.nodes[(#[trigger] t.chain[j]) as int].next.pointer
            == Some(t.chain[j + 1]) by {
            if j < n - 1 {
                assert(s.chain[j] == t.chain[j]);
                assert(s.chain[j + 1] == t.chain[j + 1]);
            }
        }
        assert forall|j: int| 1 <= j < t.chain.len() implies t.nodes[(#[trigger] t.chain[j]) as int].value
            == Some(t.enqueued[t.dequeued.len() + j - 1]) by {
            if j < n {
                assert(s.chain[j] == t.chain[j]);
            }
        }
        assert forall|x: int| 0 <= x < t.workers.len() implies #[trigger] t.worker_inv(x) by {
            assert(s.worker_inv(x));
        }
    } else {
        lemma_set_worker_inv(s, w, t.workers[w]);
        assert(t == s.set_worker(w, t.workers[w]));
    }
}

/// Moving the head forward keeps the invariant: the compare-and-swap
/// succeeds only if the head is still the node of the snapshot, the
/// successor is then the second node of the chain, and the tail is not
/// left behind.
pub proof fn lemma_unlink_inv<T>(s: State<T>, w: int)
    requires
        s.inv(),
        0 <= w < s.workers.len(),
        s.workers[w].phase is DeqSwing,
        s.updates < u64::MAX,
    ensures
        s.unlink(w).inv(),
{
    let me = s.workers[w];
    let t = s.unlink(w);
    let n = s.chain.len() as int;
    assert(s.worker_inv(w));
    if s.head == me.head {
        let first = me.head.pointer.unwrap();
        assert(s.chain[0] == first);
        assert(s.chain[n - 1] == s.chain.last());
        assert(n >= 2);
        assert(me.next.pointer == Some(s.chain[1]));
        assert forall|j: int| 0 <= j < t.chain.len() implies {
            &&& (#[trigger] t.chain[j]) < t.nodes.len()
            &&& t.status[t.chain[j] as int] is Linked
            &&& t.serial[t.chain[j] as int] == t.dequeued.len() + j
        } by {
            assert(t.chain[j] == s.chain[j + 1]);
            assert(s.serial[s.chain[0] as int] == s.dequeued.len());
        }
        assert forall|i: int|
            0 <= i < t.nodes.len() && (#[trigger] t.status[i]) is Linked implies {
            &&& 0 <= t.serial[i] - t.dequeued.len() < t.chain.len()
            &&& t.chain[t.serial[i] - t.dequeued.len()] == i
        } by {
            assert(s.status[i] is Linked);
            let k = s.serial[i] - s.dequeued.len();
            assert(s.chain[k] == i);
            assert(k != 0);
            assert(t.chain[k - 1] == s.chain[k]);
        }
        assert forall|j: int| 0 <= j < t.chain.len() - 1 implies t.nodes[(#[trigger] t.chain[j]) as int].next.pointer
            == Some(t.chain[j + 1]) by {
            assert(t.chain[j] == s.chain[j + 1]);
            assert(t.chain[j + 1] == s.chain[j + 2]);
        }
        assert forall|j: int| 1 <= j < t.chain.len() implies t.nodes[(#[trigger] t.chain[j]) as int].value
            == Some(t.enqueued[t.dequeued.len() + j - 1]) by {
            assert(t.chain[j] == s.chain[j + 1]);
        }
        assert(t.chain.last() == s.chain[n - 1]);
        assert(t.chain[0] == s.chain[1]);
        assert(s.tail.pointer != Some(s.chain[0]));
        if n >= 3 {
            assert(t.chain[t.chain.len() - 2] == s.chain[n - 2]);
        }
        assert(me.value == Some(s.enqueued[s.dequeued.len() as int])) by {
            assert(s.nodes[s.chain[1] as int].value == Some(s.enqueued[s.dequeued.len() + 1 - 1]));
        }
        assert forall|j: int, k: int|
            0 <= j < t.retired.len() && 0 <= k < t.retired.len() && j != k implies t.retired[j]
            != t.retired[k] by {
            if k == s.retired.len() {
                assert(s.status[s.retired[j] as int] is Retired);
            }
            if j == s.retired.len() {
                assert(s.status[s.retired[k] as int] is Retired);
            }
        }
        assert forall|x: int| 0 <= x < t.workers.len() implies #[trigger] t.worker_inv(x) by {
            assert(s.worker_inv(x));
        }
    } else {
        lemma_set_worker_inv(s, w, t.workers[w]);
        assert(t == s.set_worker(w, t.workers[w]));
    }
}


/// What a filter keeps was there before and passes the test, and a filter
/// of distinct items keeps them distinct.
pub proof fn lemma_filter_keeps(items: Seq<usize>, test: spec_fn(usize) -> bool)
    ensures
        forall|k: int|
            0 <= k < items.filter(test).len() ==> items.contains(#[trigger] items.filter(test)[k])
                && test(items.filter(test)[k]),
        items.no_duplicates() ==> items.filter(test).no_duplicates(),
    decreases items.len(),
{
    reveal(Seq::filter);
    if items.len() > 0 {
        let front = items.drop_last();
        let kept = front.filter(test);
        lemma_filter_keeps(front, test);
        assert forall|k: int| 0 <= k < items.filter(test).len() implies items.contains(
            #[trigger] items.filter(test)[k],
        ) && test(items.filter(test)[k]) by {
            if k < kept.len() {
                assert(front.contains(kept[k]));
                let j = choose|j: int| 0 <= j < front.len() && front[j] == kept[k];
                assert(items[j] == kept[k]);
            } else {
                assert(items[items.len() - 1] == items.last());
            }
        }
        if items.no_duplicates() {
            assert forall|j: int, k: int|
                0 <= j < front.len() && 0 <= k < front.len() && j != k implies front[j]
                != front[k] by {
                assert(items[j] != items[k]);
            }
            assert(kept.no_duplicates());
            if test(items.last()) {
                assert forall|j: int| 0 <= j < kept.len() implies kept[j] != items.last() by {
                    assert(front.contains(kept[j]));
                    let i = choose|i: int| 0 <= i < front.len() && front[i] == kept[j];
                    assert(items[i] != items[items.len() - 1]);
                }
            }
        }
    }
}

/// Which nodes are protected depends on the workers' records alone.
pub proof fn lemma_protected_by_workers<T>(a: State<T>, b: State<T>, node: usize)
    requires
        a.workers == b.workers,
    ensures
        a.protected(node) == b.protected(node),
{
    if a.protected(node) {
        let w = choose|w: int| 0 <= w < a.workers.len() && #[trigger] a.workers[w].guards(node);
        assert(b.workers[w].guards(node));
    }
    if b.protected(node) {
        let w = choose|w: int| 0 <= w < b.workers.len() && #[trigger] b.workers[w].guards(node);
        assert(a.workers[w].guards(node));
    }
}

/// A scan keeps the invariant, and frees no node that a worker protects.
pub proof fn lemma_reclaim_inv<T>(s: State<T>)
    requires
        s.inv(),
    ensures
        s.reclaim().inv(),
        forall|i: int|
            0 <= i < s.nodes.len() && s.reclaim().status[i] is Free && !(s.status[i] is Free) ==> {
                &&& s.status[i] is Retired
                &&& !s.protected(i as usize)
            },
{
    let t = s.reclaim();
    let keep = s.keeps();
    let drop = s.frees();
    let kept = s.retired.filter(keep);
    let gone = s.retired.filter(drop);
    lemma_filter_keeps(s.retired, keep);
    lemma_filter_keeps(s.retired, drop);
    assert forall|x: usize| gone.contains(x) implies x < s.nodes.len() && s.status[x as int]
        is Retired && !s.protected(x) by {
        let k = choose|k: int| 0 <= k < gone.len() && gone[k] == x;
        assert(s.retired.contains(gone[k]));
        let j = choose|j: int| 0 <= j < s.retired.len() && s.retired[j] == x;
        assert(s.status[s.retired[j] as int] is Retired);
    }
    assert forall|k: int| 0 <= k < t.chain.len() implies {
        &&& (#[trigger] t.chain[k]) < t.nodes.len()
        &&& t.status[t.chain[k] as int] is Linked
        &&& t.serial[t.chain[k] as int] == t.dequeued.len() + k
    } by {
        assert(s.status[s.chain[k] as int] is Linked);
    }
    assert forall|i: int| 0 <= i < t.nodes.len() && (#[trigger] t.status[i]) is Linked implies {
        &&& 0 <= t.serial[i] - t.dequeued.len() < t.chain.len()
        &&& t.chain[t.serial[i] - t.dequeued.len()] == i
    } by {
        assert(s.status[i] is Linked);
    }
    assert forall|k: int| 0 <= k < t.free.len() implies (#[trigger] t.free[k]) < t.nodes.len()
        && t.status[t.free[k] as int] is Free by {
        if k < s.free.len() {
            assert(t.free[k] == s.free[k]);
        } else {
            assert(t.free[k] == gone[k - s.free.len()]);
            assert(gone.contains(gone[k - s.free.len()]));
        }
    }
    assert forall|j: int, k: int|
        0 <= j < t.free.len() && 0 <= k < t.free.len() && j != k implies t.free[j]
        != t.free[k] by {
        if j < s.free.len() && k < s.free.len() {
        } else if j >= s.free.len() && k >= s.free.len() {
            assert(gone[j - s.free.len()] != gone[k - s.free.len()]);
        } else if j < s.free.len() {
            assert(gone.contains(gone[k - s.free.len()]));
            assert(s.status[s.free[j] as int] is Free);
        } else {
            assert(gone.contains(gone[j - s.free.len()]));
            assert(s.status[s.free[k] as int] is Free);
        }
    }
    assert forall|k: int| 0 <= k < t.retired.len() implies (#[trigger] t.retired[k])
        < t.nodes.len() && t.status[t.retired[k] as int] is Retired by {
        assert(s.retired.contains(kept[k]));
        let j = choose|j: int| 0 <= j < s.retired.len() && s.retired[j] == kept[k];
        assert(s.status[s.retired[j] as int] is Retired);
        assert(keep(kept[k]));
    }
    assert forall|i: int| 0 <= i < t.nodes.len() && (#[trigger] t.status[i]) is Retired
        implies t.nodes[i].next.pointer is Some by {
        assert(s.status[i] is Retired);
    }
    assert forall|x: int| 0 <= x < t.workers.len() implies #[trigger] t.worker_inv(x) by {
        let me = s.workers[x];
        assert(s.worker_inv(x));
        if me.hazard0 is Some {
            assert(me.guards(me.hazard0.unwrap()));
            assert(s.protected(me.hazard0.unwrap()));
        }
        if me.hazard1 is Some {
            assert(me.guards(me.hazard1.unwrap()));
            assert(s.protected(me.hazard1.unwrap()));
        }
    }
}

/// Allocating a node for a worker at rest keeps the invariant.
pub proof fn lemma_allocate_inv<T>(s: State<T>, w: int, value: T)
    requires
        s.inv(),
        s.resting(w),
        s.updates < u64::MAX,
        s.free.len() == 0 ==> s.nodes.len() < usize::MAX,
    ensures
        s.allocate(w, value).inv(),
        s.next_slot() < s.allocate(w, value).nodes.len(),
        s.allocate(w, value).status[s.next_slot() as int] == Status::Pending(w),
        s.allocate(w, value).nodes[s.next_slot() as int].value == Some(value),
        s.allocate(w, value).nodes[s.next_slot() as int].next.pointer is None,
{
    let t = s.allocate(w, value);
    let slot = s.next_slot() as int;
    if s.free.len() > 0 {
        assert(s.free[s.free.len() - 1] == s.free.last());
        assert(s.status[slot] is Free);
        assert forall|k: int| 0 <= k < t.free.len() implies (#[trigger] t.free[k])
            < t.nodes.len() && t.status[t.free[k] as int] is Free by {
            assert(t.free[k] == s.free[k]);
            assert(s.free[k] != s.free[s.free.len() - 1]);
        }
        assert forall|j: int, k: int|
            0 <= j < t.free.len() && 0 <= k < t.free.len() && j != k implies t.free[j]
            != t.free[k] by {
            assert(s.free[j] != s.free[k]);
        }
    }
    assert forall|k: int| 0 <= k < t.chain.len() implies {
        &&& (#[trigger] t.chain[k]) < t.nodes.len()
        &&& t.status[t.chain[k] as int] is Linked
        &&& t.serial[t.chain[k] as int] == t.dequeued.len() + k
    } by {
        assert(s.status[s.chain[k] as int] is Linked);
    }
    assert forall|i: int| 0 <= i < t.nodes.len() && (#[trigger] t.status[i]) is Linked implies {
        &&& 0 <= t.serial[i] - t.dequeued.len() < t.chain.len()
        &&& t.chain[t.serial[i] - t.dequeued.len()] == i
    } by {
        assert(s.status[i] is Linked);
    }
    assert(s.chain[s.chain.len() - 1] == s.chain.last());
    assert forall|k: int| 0 <= k < t.retired.len() implies (#[trigger] t.retired[k])
        < t.nodes.len() && t.status[t.retired[k] as int] is Retired by {
        assert(s.status[s.retired[k] as int] is Retired);
    }
    assert forall|i: int| 0 <= i < t.nodes.len() && (#[trigger] t.status[i]) is Retired
        implies t.nodes[i].next.pointer is Some by {
        assert(s.status[i] is Retired);
    }
    assert forall|x: int| 0 <= x < t.workers.len() implies #[trigger] t.worker_inv(x) by {
        assert(s.worker_inv(x));
    }
}

/// Starting an enqueue keeps the invariant.
pub proof fn lemma_begin_enqueue_inv<T>(s: State<T>, w: int, value: T)
    requires
        s.inv(),
        s.resting(w),
        s.updates < u64::MAX,
        s.replenished().free.len() == 0 ==> s.nodes.len() < usize::MAX,
    ensures
        s.begin_enqueue(w, value).inv(),
{
    let ready = s.replenished();
    if s.free.len() == 0 {
        lemma_reclaim_inv(s);
    }
    lemma_allocate_inv(ready, w, value);
    let grown = ready.allocate(w, value);
    let me = Worker {
        phase: Phase::EnqSnapshot,
        node: ready.next_slot(),
        value: Some(value),
        ..s.workers[w]
    };
    assert(s.worker_inv(w));
    assert(grown.set_worker(w, me).worker_inv(w));
    lemma_set_worker_inv(grown, w, me);
}

/// Every action of a worker keeps the invariant.
pub proof fn lemma_step_inv<T>(s: State<T>, w: int)
    requires
        s.inv(),
        s.active(w),
        s.updates < u64::MAX,
    ensures
        s.step(w).inv(),
{
    let phase = s.workers[w].phase;
    if phase is EnqSwing || phase is EnqHelp || phase is DeqHelp {
        lemma_move_tail_inv(s, w);
    } else if phase is EnqLink {
        lemma_link_inv(s, w);
    } else if phase is DeqSwing {
        lemma_unlink_inv(s, w);
    } else if phase.enqueuing() {
        lemma_enqueue_local_inv(s, w);
    } else {
        lemma_dequeue_local_inv(s, w);
    }
}

/// The queue holds what was enqueued and not yet dequeued, in that order.
pub proof fn lemma_contents_is_backlog<T>(s: State<T>)
    requires
        s.inv(),
    ensures
        s.contents() =~= s.enqueued.subrange(s.dequeued.len() as int, s.enqueued.len() as int),
        s.enqueued =~= s.dequeued + s.contents(),
{
    assert forall|k: int| 0 <= k < s.chain.len() - 1 implies s.contents()[k]
        == s.enqueued[s.dequeued.len() + k] by {
        assert(s.nodes[s.chain[k + 1] as int].value == Some(
            s.enqueued[s.dequeued.len() + (k + 1) - 1],
        ));
    }
}

} // verus!
