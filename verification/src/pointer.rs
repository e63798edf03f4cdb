//! Tagged pointers: a node reference paired with a generation counter.

use vstd::prelude::*;

verus! {

/// A reference to a node, or null, together with the number of updates the
/// cell holding it has seen.
///
/// A node is named by its index in the queue's node arena. The pair is read
/// and replaced as one unit: [`Pointer::load`] returns both halves of one
/// state of the cell, and [`Pointer::compare_and_swap`] replaces both or
/// neither.
#[derive(Clone, Copy, Debug, PartialEq, Eq)]
pub struct Pointer {
    /// The node referred to; `None` is the null pointer.
    pub pointer: Option<usize>,
    /// How many times the cell has been updated.
    pub generation: u64,
}

/// Whether two optional node indices are the same.
pub fn same_node(a: Option<usize>, b: Option<usize>) -> (same: bool)
    ensures
        same == (a == b),
{
    match (a, b) {
        (Some(x), Some(y)) => x == y,
        (None, None) => true,
        _ => false,
    }
}

impl Pointer {
    /// A cell that refers to `node` and has seen `count` updates.
    pub fn new(node: Option<usize>, count: u64) -> (cell: Self)
        ensures
            cell.pointer == node,
            cell.generation == count,
    {
        Pointer { pointer: node, generation: count }
    }

    /// The null pointer of generation zero.
    pub open spec fn null() -> Pointer {
        Pointer { pointer: None, generation: 0 }
    }

    /// What the cell holds after a compare-and-swap that expects
    /// `(expected_pointer, expected_generation)` and installs `new_pointer`.
    pub open spec fn swapped(
        self,
        expected_pointer: Option<usize>,
        expected_generation: u64,
        new_pointer: Option<usize>,
    ) -> Pointer {
        if self.matches(expected_pointer, expected_generation) {
            Pointer { pointer: new_pointer, generation: (expected_generation + 1) as u64 }
        } else {
            self
        }
    }

    /// Whether the cell holds what `snapshot` recorded or has been updated
    /// since: a cell never returns to a pair it held before.
    pub open spec fn follows(self, snapshot: Pointer) -> bool {
        snapshot == self || snapshot.generation < self.generation
    }

    /// Whether the cell currently holds exactly the given pair.
    pub open spec fn matches(self, pointer: Option<usize>, generation: u64) -> bool {
        self.pointer == pointer && self.generation == generation
    }

    /// A snapshot of the cell: pointer and generation of one and the same
    /// state.
    pub fn load(&self) -> (snapshot: Pointer)
        ensures
            snapshot == *self,
    {
        *self
    }

    /// Whether the cell still holds what `snapshot` recorded.
    pub fn holds(&self, snapshot: Pointer) -> (unchanged: bool)
        ensures
            unchanged == (*self == snapshot),
    {
        same_node(self.pointer, snapshot.pointer) && self.generation == snapshot.generation
    }

    /// Replaces the pair by `(new_pointer, expected_generation + 1)` if it
    /// still equals `(expected_pointer, expected_generation)`, and leaves it
    /// untouched otherwise. Returns whether the replacement took place.
    pub fn compare_and_swap(
        &mut self,
        expected_pointer: Option<usize>,
        expected_generation: u64,
        new_pointer: Option<usize>,
    ) -> (swapped: bool)
        requires
            expected_generation < u64::MAX,
        ensures
            swapped == old(self).matches(expected_pointer, expected_generation),
            *final(self) == old(self).swapped(expected_pointer, expected_generation, new_pointer),
    {
        if same_node(self.pointer, expected_pointer) && self.generation == expected_generation {
            self.pointer = new_pointer;
            self.generation = expected_generation + 1;
            true
        } else {
            false
        }
    }
}

/// A successful compare-and-swap raises the generation by exactly one, and a
/// failed one changes nothing.
pub proof fn lemma_swap_advances_generation(
    cell: Pointer,
    expected_pointer: Option<usize>,
    expected_generation: u64,
    new_pointer: Option<usize>,
)
    requires
        expected_generation < u64::MAX,
    ensures
        cell.matches(expected_pointer, expected_generation) ==> cell.swapped(
            expected_pointer,
            expected_generation,
            new_pointer,
        ).generation == cell.generation + 1,
        !cell.matches(expected_pointer, expected_generation) ==> cell.swapped(
            expected_pointer,
            expected_generation,
            new_pointer,
        ) == cell,
{
}

/// A compare-and-swap against a snapshot taken before an intervening update
/// fails, even when the cell has come back to the snapshot's pointer: the
/// first swap succeeds, and so the second, which expects the same pair, does
/// not.
pub proof fn lemma_stale_swap_fails(
    cell: Pointer,
    snapshot: Pointer,
    first: Option<usize>,
    second: Option<usize>,
)
    requires
        snapshot == cell,
        snapshot.generation < u64::MAX,
    ensures
        ({
            let updated = cell.swapped(snapshot.pointer, snapshot.generation, first);
            &&& !updated.matches(snapshot.pointer, snapshot.generation)
            &&& updated.swapped(snapshot.pointer, snapshot.generation, second) == updated
        }),
{
}

} // verus!
