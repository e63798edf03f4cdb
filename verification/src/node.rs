//! List cells.

use crate::pointer::Pointer;
use vstd::prelude::*;

verus! {

/// One cell of the linked list: a value and the link to the cell after it.
///
/// The sentinel at the front of the list is the only linked cell whose value
/// is never handed out; the cell created with the queue carries `None`.
#[derive(Clone, Copy, Debug, PartialEq, Eq)]
pub struct Node<T> {
    /// The value carried by the cell.
    pub value: Option<T>,
    /// The successor, with the generation of this link.
    pub next: Pointer,
}

impl<T> Node<T> {
    /// A cell that carries `value` and has no successor.
    pub fn new(value: T) -> (node: Self)
        ensures
            node.value == Some(value),
            node.next == Pointer::null(),
    {
        Node { value: Some(value), next: Pointer { pointer: None, generation: 0 } }
    }

    /// The cell that heads an empty list.
    pub fn sentinel() -> (node: Self)
        ensures
            node.value is None,
            node.next == Pointer::null(),
    {
        Node { value: None, next: Pointer { pointer: None, generation: 0 } }
    }
}

} // verus!
