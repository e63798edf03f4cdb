//! The blocking queue: a buffer with a shutdown flag.
//!
//! [`BlockingQueue`] is the state that a mutex guards. Its `dequeue` never
//! waits itself: where the caller would have to wait it says so, and the
//! caller waits on its condition variable and asks again. `enqueue` and
//! `set_done` say whom to wake.
//!
//! A value enqueued after `set_done` is accepted like any other and is
//! handed to the next `dequeue`; only when the buffer is empty again is the
//! queue closed.

use std::collections::VecDeque;
use vstd::prelude::*;

verus! {

/// What a blocking queue holds: the buffered values, oldest first, and
/// whether shutdown was requested.
#[verifier::ext_equal]
pub struct Buffer<T> {
    /// The buffered values, oldest first.
    pub items: Seq<T>,
    /// Whether shutdown was requested.
    pub done: bool,
}

/// What a `dequeue` found.
#[derive(Debug, PartialEq, Eq)]
pub enum Attempt<T> {
    /// The oldest value, now removed.
    Value(T),
    /// The buffer is empty and shutdown was requested: nothing will come.
    Closed,
    /// The buffer is empty: the caller waits to be woken and asks again.
    Blocked,
}

/// Whom to wake after a change.
#[derive(Clone, Copy, Debug, PartialEq, Eq)]
pub enum Wake {
    /// One waiting caller.
    One,
    /// Every waiting caller.
    All,
}

impl<T> Buffer<T> {
    /// The buffer of a new queue.
    pub open spec fn empty() -> Buffer<T> {
        Buffer { items: Seq::empty(), done: false }
    }

    /// The buffer after `value` was enqueued.
    pub open spec fn enqueue(self, value: T) -> Buffer<T> {
        Buffer { items: self.items.push(value), ..self }
    }

    /// The buffer after shutdown was requested.
    pub open spec fn set_done(self) -> Buffer<T> {
        Buffer { done: true, ..self }
    }

    /// What a `dequeue` finds in this buffer.
    pub open spec fn attempt(self) -> Attempt<T> {
        if self.items.len() > 0 {
            Attempt::Value(self.items[0])
        } else if self.done {
            Attempt::Closed
        } else {
            Attempt::Blocked
        }
    }

    /// The buffer after a `dequeue`.
    pub open spec fn dequeue(self) -> Buffer<T> {
        if self.items.len() > 0 {
            Buffer { items: self.items.subrange(1, self.items.len() as int), ..self }
        } else {
            self
        }
    }

    /// The buffer after `count` calls of `dequeue`.
    pub open spec fn drained(self, count: nat) -> Buffer<T>
        decreases count,
    {
        if count == 0 {
            self
        } else {
            self.drained((count - 1) as nat).dequeue()
        }
    }
}

/// The state of a blocking queue.
pub struct BlockingQueue<T> {
    queue: VecDeque<T>,
    done: bool,
}

impl<T> View for BlockingQueue<T> {
    type V = Buffer<T>;

    closed spec fn view(&self) -> Buffer<T> {
        Buffer { items: self.queue@, done: self.done }
    }
}

impl<T> BlockingQueue<T> {
    /// An empty queue that is not shut down.
    pub fn new() -> (queue: Self)
        ensures
            queue@ == Buffer::<T>::empty(),
    {
        BlockingQueue { queue: VecDeque::new(), done: false }
    }

    /// Adds `value` at the back. One waiting caller is to be woken.
    pub fn enqueue(&mut self, value: T) -> (wake: Wake)
        ensures
            final(self)@ == old(self)@.enqueue(value),
            wake == Wake::One,
    {
        self.queue.push_back(value);
        Wake::One
    }

    /// Removes and returns the oldest value if there is one. On an empty
    /// buffer the answer is `Closed` after shutdown and `Blocked` before
    /// it, and nothing changes.
    pub fn dequeue(&mut self) -> (attempt: Attempt<T>)
        ensures
            attempt == old(self)@.attempt(),
            final(self)@ == old(self)@.dequeue(),
    {
        if self.done && self.queue.len() == 0 {
            return Attempt::Closed;
        }
        match self.queue.pop_front() {
            Some(value) => Attempt::Value(value),
            None => Attempt::Blocked,
        }
    }

    /// Requests shutdown. Every waiting caller is to be woken.
    pub fn set_done(&mut self) -> (wake: Wake)
        ensures
            final(self)@ == old(self)@.set_done(),
            wake == Wake::All,
    {
        self.done = true;
        Wake::All
    }

    /// Whether shutdown was requested.
    pub fn is_done(&self) -> (done: bool)
        ensures
            done == self@.done,
    {
        self.done
    }

    /// The number of buffered values.
    pub fn len(&self) -> (count: usize)
        ensures
            count == self@.items.len(),
    {
        self.queue.len()
    }

    /// The buffered value at `index`, counted from the oldest.
    pub fn item(&self, index: usize) -> (value: Option<&T>)
        ensures
            value == if index < self@.items.len() {
                Some(&self@.items[index as int])
            } else {
                None
            },
    {
        if index < self.queue.len() {
            Some(&self.queue[index])
        } else {
            None
        }
    }
}

/// A `dequeue` on an empty queue that is not shut down finds nothing and
/// changes nothing, so the caller stays blocked however often it asks. An
/// `enqueue` releases it with the value, and a shutdown releases it with
/// the closed indicator, which then stays.
pub proof fn lemma_blocked_until_woken<T>(buffer: Buffer<T>, value: T)
    requires
        buffer.items.len() == 0,
        !buffer.done,
    ensures
        buffer.attempt() is Blocked,
        buffer.dequeue() == buffer,
        buffer.enqueue(value).attempt() == Attempt::Value(value),
        buffer.set_done().attempt() is Closed,
        buffer.set_done().dequeue() == buffer.set_done(),
{
}

/// Repeated `dequeue` hands out the buffered values in order. When they
/// are used up, every further call is closed after shutdown and blocked
/// before it.
pub proof fn lemma_drains_in_order<T>(buffer: Buffer<T>, count: nat)
    ensures
        buffer.drained(count).done == buffer.done,
        count <= buffer.items.len() ==> buffer.drained(count).items =~= buffer.items.skip(
            count as int,
        ),
        count < buffer.items.len() ==> buffer.drained(count).attempt() == Attempt::Value(
            buffer.items[count as int],
        ),
        count >= buffer.items.len() ==> buffer.drained(count).items.len() == 0,
        count >= buffer.items.len() && buffer.done ==> buffer.drained(count).attempt() is Closed,
        count >= buffer.items.len() && !buffer.done ==> buffer.drained(count).attempt()
            is Blocked,
    decreases count,
{
    if count > 0 {
        lemma_drains_in_order(buffer, (count - 1) as nat);
    }
}

} // verus!
