use seekable_iterator::{
    CursorLendingIterator, CursorPooledIterator, LenderAdapter, LendingIteratorAdapter,
    OutOfBuffers, PooledIter, PooledIterator, PooledIteratorAdapters, PooledLenderAdapter,
    PooledLendingIteratorAdapter, Seekable, TestIter,
};

#[test]
fn lender_adapter_keeps_the_cursor_methods() {
    let data: &[u8] = &[1, 2, 3];
    let mut adapter = TestIter::new(data).unwrap().into_lender();
    assert!(!adapter.valid());
    assert_eq!(adapter.current(), None);
    assert_eq!(adapter.prev(), Some(&3));
    assert!(adapter.valid());
    assert_eq!(adapter.prev(), Some(&2));
    assert_eq!(adapter.current(), Some(&2));

    adapter.seek(&3);
    assert_eq!(adapter.current(), Some(&3));
    adapter.seek_before(&2);
    assert_eq!(adapter.current(), Some(&1));
    adapter.seek_to_last();
    assert_eq!(adapter.current(), Some(&3));
    adapter.seek_to_first();
    assert_eq!(adapter.current(), Some(&1));
    adapter.reset();
    assert!(!adapter.valid());

    let mut iter = adapter.into_inner();
    assert_eq!(iter.next(), Some(&1));
    let adapter = LenderAdapter::new(iter);
    assert_eq!(adapter.current(), Some(&1));
}

#[test]
fn lending_iterator_adapter_keeps_the_cursor_methods() {
    let data: &[u8] = &[1, 2, 3];
    let mut adapter = TestIter::new(data).unwrap().into_lending_iterator();
    assert!(!adapter.valid());
    assert_eq!(adapter.current(), None);
    assert_eq!(adapter.prev(), Some(&3));
    assert!(adapter.valid());
    assert_eq!(adapter.prev(), Some(&2));
    assert_eq!(adapter.current(), Some(&2));

    adapter.seek(&3);
    assert_eq!(adapter.current(), Some(&3));
    adapter.seek_before(&2);
    assert_eq!(adapter.current(), Some(&1));
    adapter.seek_to_last();
    assert_eq!(adapter.current(), Some(&3));
    adapter.seek_to_first();
    assert_eq!(adapter.current(), Some(&1));
    adapter.reset();
    assert!(!adapter.valid());

    let mut iter = adapter.into_inner();
    assert_eq!(iter.next(), Some(&1));
    let adapter = LendingIteratorAdapter::new(iter);
    assert_eq!(adapter.current(), Some(&1));
}

#[test]
fn pooled_lender_adapter_holds_one_item() {
    let data: &[u8] = &[1, 2, 3];
    let pooled = PooledIter::<_, u8>::new(TestIter::new(data).unwrap(), 1);
    let mut adapter = PooledLenderAdapter::new(pooled);
    assert!(!adapter.valid());
    assert!(adapter.current().is_none());

    assert_eq!(**adapter.try_prev().unwrap().unwrap(), 3);
    assert!(adapter.valid());
    assert_eq!(**adapter.current().unwrap(), 3);
    // The one buffer is held by the adapter, and freed for each move.
    assert_eq!(**adapter.try_prev().unwrap().unwrap(), 2);
    assert_eq!(**adapter.try_prev().unwrap().unwrap(), 1);
    assert!(adapter.try_prev().unwrap().is_none());
    assert!(adapter.current().is_none());
    assert_eq!(**adapter.try_next().unwrap().unwrap(), 1);
    assert_eq!(**adapter.try_next().unwrap().unwrap(), 2);
    assert_eq!(**adapter.current().unwrap(), 2);

    adapter.seek(&2);
    assert!(adapter.valid());
    adapter.seek_to_first();
    adapter.seek_to_last();
    adapter.seek_before(&2);
    adapter.reset();
    assert!(!adapter.valid());

    let mut pooled = adapter.into_inner();
    assert_eq!(pooled.buffer_pool_size(), 1);
    assert_eq!(pooled.available_buffers(), 1);
    assert_eq!(*pooled.try_next().unwrap().unwrap(), 1);
}

#[test]
fn pooled_lending_iterator_adapter_holds_one_item() {
    let data: &[u8] = &[1, 2, 3];
    let pooled = PooledIter::<_, u8>::new(TestIter::new(data).unwrap(), 1);
    let mut adapter = PooledLendingIteratorAdapter::new(pooled);
    assert!(!adapter.valid());
    assert!(adapter.current().is_none());

    assert_eq!(**adapter.try_prev().unwrap().unwrap(), 3);
    assert_eq!(**adapter.current().unwrap(), 3);
    assert_eq!(**adapter.try_prev().unwrap().unwrap(), 2);
    assert_eq!(**adapter.try_next().unwrap().unwrap(), 3);
    assert!(adapter.try_next().unwrap().is_none());
    assert!(adapter.current().is_none());
    adapter.seek(&3);
    assert!(adapter.valid());
    adapter.reset();
    assert!(!adapter.valid());

    let pooled = adapter.into_inner();
    assert!(!pooled.valid());
    assert!(pooled.try_current().unwrap().is_none());
}

#[test]
fn an_adapter_without_a_free_buffer_refuses_and_holds_nothing() {
    let data: &[u8] = &[1, 2, 3];
    let mut pooled = PooledIter::<_, u8>::new(TestIter::new(data).unwrap(), 1);
    let taken = pooled.try_next().unwrap().unwrap();
    assert_eq!(*taken, 1);

    let mut adapter = pooled.into_lender();
    assert!(matches!(adapter.try_next(), Err(OutOfBuffers)));
    assert!(adapter.current().is_none());
    assert!(matches!(adapter.try_prev(), Err(OutOfBuffers)));
    // The iterator is where it was.
    assert!(adapter.valid());
    drop(taken);
    assert_eq!(**adapter.try_next().unwrap().unwrap(), 2);

    let mut adapter = adapter.into_inner().into_lending_iterator();
    assert!(adapter.current().is_none());
    assert_eq!(**adapter.try_prev().unwrap().unwrap(), 1);
}

#[test]
fn a_pool_without_buffers_always_refuses() {
    let data: &[u8] = &[1, 2, 3];
    let mut pooled = PooledIter::<_, u8>::new(TestIter::new(data).unwrap(), 0);
    assert_eq!(pooled.buffer_pool_size(), 0);
    assert_eq!(pooled.available_buffers(), 0);
    assert!(matches!(pooled.try_next(), Err(OutOfBuffers)));
    assert!(matches!(pooled.try_current(), Err(OutOfBuffers)));
    assert!(matches!(pooled.try_prev(), Err(OutOfBuffers)));
    // The iterator can still be moved, and asked where it is.
    assert!(pooled.move_next());
    assert!(pooled.valid());
    assert!(pooled.move_prev() == false);
    assert!(!pooled.valid());
}
