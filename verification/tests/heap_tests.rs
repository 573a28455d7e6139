use heap_list::heap::{Heap, MaxHeap, MinHeap};
use heap_list::order::{MaxComparator, MinComparator};

fn drain_min(h: &mut Heap<i32, MinComparator>) -> Vec<i32> {
    let mut out = Vec::new();
    while let Some(x) = h.extract_best() {
        out.push(x);
    }
    out
}

fn drain_max(h: &mut Heap<i32, MaxComparator>) -> Vec<i32> {
    let mut out = Vec::new();
    while let Some(x) = h.extract_best() {
        out.push(x);
    }
    out
}

#[test]
fn min_heap_drains_in_non_decreasing_order() {
    let mut h: Heap<i32, MinComparator> = Heap::new_min();
    for v in [5, 3, 8, 1, 9, 2] {
        h.add(v);
    }
    assert_eq!(drain_min(&mut h), vec![1, 2, 3, 5, 8, 9]);
    assert!(h.is_empty());
}

#[test]
fn max_heap_drains_in_non_increasing_order() {
    let mut h: Heap<i32, MaxComparator> = Heap::new_max();
    for v in [5, 3, 8, 1, 9, 2] {
        h.add(v);
    }
    assert_eq!(drain_max(&mut h), vec![9, 8, 5, 3, 2, 1]);
    assert!(h.is_empty());
}

#[test]
fn alternating_adds_and_extracts_match_a_sorted_simulation() {
    let mut h: Heap<i32, MinComparator> = MinHeap::new();
    let mut reference: Vec<i32> = Vec::new();
    let mut heap_out: Vec<i32> = Vec::new();
    let mut reference_out: Vec<i32> = Vec::new();

    for v in [5, 3, 8, 1] {
        h.add(v);
        reference.push(v);
    }
    heap_out.push(h.extract_best().unwrap());
    reference.sort();
    reference_out.push(reference.remove(0));

    for v in [9, 2] {
        h.add(v);
        reference.push(v);
    }
    while let Some(x) = h.extract_best() {
        heap_out.push(x);
        reference.sort();
        reference_out.push(reference.remove(0));
    }

    assert_eq!(heap_out, reference_out);
    assert!(reference.is_empty());
}

#[test]
fn extract_best_on_empty_heap_is_a_repeatable_no_op() {
    let mut h: Heap<i32, MinComparator> = MinHeap::new();
    assert_eq!(h.extract_best(), None);
    assert_eq!(h.extract_best(), None);
    assert_eq!(h.len(), 0);
    h.add(1);
    assert_eq!(h.extract_best(), Some(1));
    assert_eq!(h.extract_best(), None);
    assert_eq!(h.extract_best(), None);
    assert_eq!(h.len(), 0);
}

#[test]
fn len_counts_adds_minus_successful_extracts() {
    let mut h: Heap<i32, MinComparator> = Heap::new_min();
    assert_eq!(h.len(), 0);
    assert!(h.is_empty());
    h.add(4);
    h.add(4);
    h.add(7);
    assert_eq!(h.len(), 3);
    assert!(!h.is_empty());
    assert!(h.extract_best().is_some());
    assert_eq!(h.len(), 2);
    assert_eq!(h.extract_best(), Some(4));
    assert_eq!(h.extract_best(), Some(7));
    assert_eq!(h.extract_best(), None);
    assert_eq!(h.len(), 0);
}

#[test]
fn every_insertion_order_of_unique_values_drains_identically() {
    let permutations = [
        [4, 1, 3, 2, 5],
        [5, 4, 3, 2, 1],
        [1, 2, 3, 4, 5],
        [3, 5, 1, 4, 2],
        [2, 1, 5, 3, 4],
    ];
    for p in permutations {
        let mut h: Heap<i32, MinComparator> = Heap::new_min();
        for v in p {
            h.add(v);
        }
        assert_eq!(drain_min(&mut h), vec![1, 2, 3, 4, 5]);
    }
}

#[test]
fn draining_preserves_multiplicities() {
    let mut h: Heap<i32, MinComparator> = Heap::new_min();
    for v in [5, 3, 3, 1, 1, 9] {
        h.add(v);
    }
    assert_eq!(drain_min(&mut h), vec![1, 1, 3, 3, 5, 9]);
}

#[test]
fn explicit_comparator_construction_matches_the_conveniences() {
    let mut min_h = Heap::new(MinComparator);
    let mut max_h = Heap::new(MaxComparator);
    for v in [2, 7, 7, 0] {
        min_h.add(v);
        max_h.add(v);
    }
    assert_eq!(drain_min(&mut min_h), vec![0, 2, 7, 7]);
    assert_eq!(drain_max(&mut max_h), vec![7, 7, 2, 0]);
}

#[test]
fn min_heap_orders_strings() {
    let mut h = MinHeap::new::<String>();
    for w in ["pear", "apple", "fig"] {
        h.add(w.to_string());
    }
    assert_eq!(h.extract_best(), Some("apple".to_string()));
    assert_eq!(h.extract_best(), Some("fig".to_string()));
    assert_eq!(h.extract_best(), Some("pear".to_string()));
    assert_eq!(h.extract_best(), None);
}

#[test]
fn max_heap_convenience_builder_orders_u64() {
    let mut h = MaxHeap::new::<u64>();
    for v in [10u64, 30, 20] {
        h.add(v);
    }
    assert_eq!(h.len(), 3);
    assert_eq!(h.extract_best(), Some(30));
    assert_eq!(h.extract_best(), Some(20));
    assert_eq!(h.extract_best(), Some(10));
}
