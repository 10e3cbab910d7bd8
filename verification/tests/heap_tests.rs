use algolib::heap::EmptyHeapError;
use algolib::heap::Heap;

/// Every parent/child pair currently in range satisfies the max-heap
/// property.
fn assert_max_heap(hp: &Heap) {
    let n = hp.heap.len();
    for i in 1..n {
        let parent = (i - 1) / 2;
        assert!(
            hp.heap[parent] >= hp.heap[i],
            "heap property broken at parent {} and child {}",
            parent,
            i
        );
    }
}

#[test]
fn test_add_1() {
    let mut hp = Heap::default();
    hp.add(10);

    println!("{:?}", hp);
}

#[test]
fn test_add_2() {
    let mut hp = Heap::default();
    hp.add(2);
    hp.add(12);
    hp.add(20);
    hp.add(8);
    hp.add(17);
    hp.add(9);
    hp.add(26);
    hp.add(4);

    for _ in 0..(hp.heap.len()) {
        println!("length is now {}", hp.heap.len());
        let head = hp.remove();
        println!("head = {}", head);
    }
    println!("{:#?}", hp.heap);
}

#[test]
fn test_get_children() {
    let heap = Heap::new(vec![0, 1, 2, 3, 4, 5, 6, 7, 8, 9, 10]);

    let kids = heap.get_children(3);
    println!("{:?}", kids)
}

#[test]
fn test_sink() {
    let mut heap = Heap::new(vec![5, 4, 3, 2, 1]);
    let head = heap.remove();
    let h2 = heap.remove();
    let h3 = heap.remove();

    println!("head = {}, h2 = {}, h3 = {}, {:?}", head, h2, h3, heap);
}

#[test]
fn invariant_after_every_operation() {
    let mut hp = Heap::default();
    let values = [3, 1, 4, 1, 5, 9, 2, 6, 5, 3, 5];
    for v in values {
        hp.insert(v);
        assert_max_heap(&hp);
    }
    for _ in 0..4 {
        hp.extract_max().unwrap();
        assert_max_heap(&hp);
    }
    hp.insert(-7);
    assert_max_heap(&hp);
    while hp.len() > 0 {
        hp.extract_max().unwrap();
        assert_max_heap(&hp);
    }
}

#[test]
fn extract_max_dominates_remainder() {
    let mut hp = Heap::new(vec![14, 3, 27, 27, -5, 0, 8]);
    while hp.len() > 0 {
        let head = hp.extract_max().unwrap();
        for i in 0..hp.heap.len() {
            assert!(head >= hp.heap[i]);
        }
    }
}

#[test]
fn count_conservation() {
    let mut hp = Heap::default();
    assert_eq!(hp.len(), 0);
    hp.insert(11);
    assert_eq!(hp.len(), 1);
    hp.insert(-2);
    assert_eq!(hp.len(), 2);
    hp.insert(11);
    assert_eq!(hp.len(), 3);
    hp.extract_max().unwrap();
    assert_eq!(hp.len(), 2);
    hp.extract_max().unwrap();
    assert_eq!(hp.len(), 1);
    hp.extract_max().unwrap();
    assert_eq!(hp.len(), 0);
}

#[test]
fn extraction_sorts_descending() {
    let mut hp = Heap::default();
    for v in [2, 12, 20, 8, 17, 9, 26, 4] {
        hp.insert(v);
    }
    let mut order: Vec<i64> = Vec::new();
    while hp.len() > 0 {
        order.push(hp.extract_max().unwrap());
    }
    assert_eq!(order, vec![26, 20, 17, 12, 9, 8, 4, 2]);
}

#[test]
fn empty_heap_extract_fails() {
    let mut hp = Heap::default();
    assert_eq!(hp.extract_max(), Err(EmptyHeapError));
    assert_eq!(hp.len(), 0);

    let mut built = Heap::new(vec![]);
    assert_eq!(built.extract_max(), Err(EmptyHeapError));
}

#[test]
fn single_element_round_trip() {
    let mut hp = Heap::default();
    hp.insert(41);
    assert_eq!(hp.extract_max(), Ok(41));
    assert_eq!(hp.len(), 0);
    assert_eq!(hp.peek(), None);
}

#[test]
fn duplicates_come_back_intact() {
    let mut hp = Heap::default();
    hp.insert(5);
    hp.insert(5);
    hp.insert(5);
    assert_max_heap(&hp);
    assert_eq!(hp.extract_max(), Ok(5));
    assert_max_heap(&hp);
    assert_eq!(hp.extract_max(), Ok(5));
    assert_max_heap(&hp);
    assert_eq!(hp.extract_max(), Ok(5));
    assert_eq!(hp.len(), 0);
}

#[test]
fn peek_reads_without_mutation() {
    let mut hp = Heap::new(vec![7, 3, 9, -1]);
    assert_eq!(hp.peek(), Some(9));
    assert_eq!(hp.len(), 4);
    assert_eq!(hp.peek(), Some(9));
    assert_eq!(hp.extract_max(), Ok(9));
    assert_eq!(hp.peek(), Some(7));
}

#[test]
fn new_heapifies_arbitrary_input() {
    let hp = Heap::new(vec![1, 2, 3, 4, 5, 6, 7, 8, 9]);
    assert_eq!(hp.len(), 9);
    assert_max_heap(&hp);
    assert_eq!(hp.peek(), Some(9));
}

#[test]
fn children_of_leaf_and_inner_nodes() {
    let heap = Heap::new(vec![0, 1, 2, 3, 4, 5, 6, 7, 8, 9, 10]);
    let kids = heap.get_children(4);
    assert_eq!(kids, vec![(9, heap.heap[9]), (10, heap.heap[10])]);
    let one = heap.get_children(5);
    assert_eq!(one.len(), 0);
    let tail = heap.get_children(10);
    assert_eq!(tail, vec![]);
}
