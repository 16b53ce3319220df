use tobytcp::store::PendingBytes;

#[test]
fn empty_store_has_nothing_to_give() {
    let mut store = PendingBytes::new();
    assert_eq!(store.len(), 0);
    assert!(store.is_empty());
    assert_eq!(store.take(1), None);
    assert_eq!(store.take(0), Some(vec![]));
    assert_eq!(store.len(), 0);
}

#[test]
fn take_spans_chunks_and_splits_the_last() {
    let mut store = PendingBytes::new();
    store.push(vec![1, 2, 3]);
    store.push(vec![4]);
    store.push(vec![5, 6, 7, 8]);
    assert_eq!(store.len(), 8);
    assert_eq!(store.take(6), Some(vec![1, 2, 3, 4, 5, 6]));
    assert_eq!(store.len(), 2);
    assert_eq!(store.take(3), None);
    assert_eq!(store.len(), 2);
    assert_eq!(store.take(1), Some(vec![7]));
    assert_eq!(store.take(1), Some(vec![8]));
    assert!(store.is_empty());
}

#[test]
fn take_inside_one_chunk_keeps_the_order() {
    let mut store = PendingBytes::new();
    store.push(vec![10, 20, 30, 40, 50]);
    assert_eq!(store.take(2), Some(vec![10, 20]));
    assert_eq!(store.take(2), Some(vec![30, 40]));
    store.push(vec![60]);
    assert_eq!(store.len(), 2);
    assert_eq!(store.take(2), Some(vec![50, 60]));
    assert_eq!(store.take(1), None);
}

#[test]
fn empty_chunks_change_nothing() {
    let mut store = PendingBytes::new();
    store.push(vec![]);
    assert!(store.is_empty());
    store.push(vec![9]);
    store.push(vec![]);
    store.push(vec![8]);
    assert_eq!(store.len(), 2);
    assert_eq!(store.take(2), Some(vec![9, 8]));
}

#[test]
fn too_large_a_take_leaves_the_store_as_it_was() {
    let mut store = PendingBytes::new();
    store.push(vec![1, 2]);
    store.push(vec![3]);
    assert_eq!(store.take(4), None);
    assert_eq!(store.take(usize::MAX), None);
    assert_eq!(store.take(3), Some(vec![1, 2, 3]));
}

#[test]
fn first_looks_and_pop_takes() {
    let mut store = PendingBytes::new();
    assert_eq!(store.first(), None);
    assert_eq!(store.pop(), None);
    store.push(vec![1]);
    store.push(vec![2, 3]);
    assert_eq!(store.first(), Some(1));
    assert_eq!(store.first(), Some(1));
    assert_eq!(store.len(), 3);
    assert_eq!(store.pop(), Some(1));
    assert_eq!(store.first(), Some(2));
    assert_eq!(store.pop(), Some(2));
    assert_eq!(store.len(), 1);
    assert_eq!(store.take(1), Some(vec![3]));
    assert_eq!(store.first(), None);
    assert_eq!(store.pop(), None);
    assert!(store.is_empty());
}
