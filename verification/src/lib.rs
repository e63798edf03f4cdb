//! Concurrent FIFO queues.
//!
//! The centre of the crate is [`LockFreeQueue`], a linked queue whose head and
//! tail are tagged pointers updated only by compare-and-swap. Every shared
//! memory access of the algorithm is one step of a transition system, so that
//! any interleaving of producers and consumers is a sequence of steps, and the
//! properties of the queue are invariants of that system.
//!
//! [`BlockingQueue`] is the guarded state of a mutex-and-condition-variable
//! queue: a buffer with a shutdown flag whose `dequeue` says when the caller
//! has to wait.

pub mod blocking_queue;
pub mod model;
pub mod node;
pub mod non_blocking_queue;
pub mod pointer;
pub mod progress;
pub mod safety;
pub mod schedule;

pub use blocking_queue::Attempt;
pub use blocking_queue::BlockingQueue;
pub use blocking_queue::Buffer;
pub use blocking_queue::Wake;
pub use model::Phase;
pub use model::Progress;
pub use model::State;
pub use model::Status;
pub use model::Worker;
pub use node::Node;
pub use non_blocking_queue::LockFreeQueue;
pub use non_blocking_queue::Queue;
pub use pointer::Pointer;
pub use progress::HEADROOM;
pub use schedule::Action;
