use concurrent_queue::pointer::same_node;
use concurrent_queue::Node;
use concurrent_queue::Pointer;
use concurrent_queue::Queue;

#[test]
fn new_pointer_holds_its_parts() {
    let cell = Pointer::new(Some(4), 9);
    assert_eq!(cell.pointer, Some(4));
    assert_eq!(cell.generation, 9);
    let null = Pointer::new(None, 0);
    assert_eq!(null.pointer, None);
    assert_eq!(null.generation, 0);
}

#[test]
fn load_returns_both_halves_of_one_state() {
    let cell = Pointer::new(Some(2), 5);
    assert_eq!(cell.load(), Pointer { pointer: Some(2), generation: 5 });
}

#[test]
fn swap_succeeds_on_exact_match_and_counts_up() {
    let mut cell = Pointer::new(Some(1), 0);
    assert!(cell.compare_and_swap(Some(1), 0, Some(2)));
    assert_eq!(cell, Pointer { pointer: Some(2), generation: 1 });
    assert!(cell.compare_and_swap(Some(2), 1, None));
    assert_eq!(cell, Pointer { pointer: None, generation: 2 });
}

#[test]
fn swap_fails_on_wrong_pointer() {
    let mut cell = Pointer::new(Some(1), 3);
    assert!(!cell.compare_and_swap(Some(2), 3, Some(7)));
    assert_eq!(cell, Pointer { pointer: Some(1), generation: 3 });
    assert!(!cell.compare_and_swap(None, 3, Some(7)));
    assert_eq!(cell, Pointer { pointer: Some(1), generation: 3 });
}

#[test]
fn swap_fails_on_wrong_generation() {
    let mut cell = Pointer::new(Some(1), 3);
    assert!(!cell.compare_and_swap(Some(1), 2, Some(7)));
    assert!(!cell.compare_and_swap(Some(1), 4, Some(7)));
    assert_eq!(cell, Pointer { pointer: Some(1), generation: 3 });
}

#[test]
fn stale_swap_fails_after_pointer_comes_back() {
    let mut cell = Pointer::new(Some(1), 0);
    let snapshot = cell.load();
    assert!(cell.compare_and_swap(Some(1), 0, Some(2)));
    assert!(cell.compare_and_swap(Some(2), 1, Some(1)));
    assert_eq!(cell.pointer, snapshot.pointer);
    assert!(!cell.compare_and_swap(snapshot.pointer, snapshot.generation, Some(9)));
    assert_eq!(cell, Pointer { pointer: Some(1), generation: 2 });
}

#[test]
fn holds_compares_pointer_and_generation() {
    let cell = Pointer::new(Some(1), 4);
    assert!(cell.holds(Pointer { pointer: Some(1), generation: 4 }));
    assert!(!cell.holds(Pointer { pointer: Some(1), generation: 5 }));
    assert!(!cell.holds(Pointer { pointer: Some(2), generation: 4 }));
    assert!(!cell.holds(Pointer { pointer: None, generation: 4 }));
}

#[test]
fn same_node_tells_indices_apart() {
    assert!(same_node(None, None));
    assert!(same_node(Some(3), Some(3)));
    assert!(!same_node(Some(3), Some(4)));
    assert!(!same_node(Some(3), None));
    assert!(!same_node(None, Some(0)));
}

#[test]
fn new_node_has_value_and_no_successor() {
    let node = Node::new(17);
    assert_eq!(node.value, Some(17));
    assert_eq!(node.next, Pointer { pointer: None, generation: 0 });
}

#[test]
fn sentinel_has_no_value() {
    let node: Node<i32> = Node::sentinel();
    assert_eq!(node.value, None);
    assert_eq!(node.next, Pointer { pointer: None, generation: 0 });
}

#[test]
fn new_memory_has_one_sentinel() {
    let q: Queue<i32> = Queue::new();
    assert_eq!(q.head, Pointer { pointer: Some(0), generation: 0 });
    assert_eq!(q.tail, Pointer { pointer: Some(0), generation: 0 });
    assert_eq!(q.nodes.len(), 1);
    assert_eq!(q.nodes[0].value, None);
    assert_eq!(q.nodes[0].next.pointer, None);
    assert!(q.free.is_empty());
    assert!(q.retired.is_empty());
    assert_eq!(q.updates, 0);
}
