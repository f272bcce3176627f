use anchored_pool::ResourcePoolEmpty;
use seekable_iterator::{
    CursorPooledIterator, OutOfBuffers, PoolItem, PooledIter, PooledIterator, Seekable, TestIter,
};

/// The moves that take a buffer as the pool gives it: `get` panics where none is free.
trait Blocking {
    fn next(&mut self) -> Option<PoolItem<u8>>;
    fn current(&self) -> Option<PoolItem<u8>>;
    fn prev(&mut self) -> Option<PoolItem<u8>>;
}

impl Blocking for PooledIter<TestIter<'_>, u8> {
    fn next(&mut self) -> Option<PoolItem<u8>> {
        if self.move_next() {
            let buffer = PoolItem(self.buffer_pool().get());
            self.try_current_with(Ok(buffer)).unwrap()
        } else {
            None
        }
    }

    fn current(&self) -> Option<PoolItem<u8>> {
        if self.valid() {
            let buffer = PoolItem(self.buffer_pool().get());
            self.try_current_with(Ok(buffer)).unwrap()
        } else {
            None
        }
    }

    fn prev(&mut self) -> Option<PoolItem<u8>> {
        if self.move_prev() {
            let buffer = PoolItem(self.buffer_pool().get());
            self.try_current_with(Ok(buffer)).unwrap()
        } else {
            None
        }
    }
}

#[test]
fn pooled_test_iter() {
    let data: &[u8] = [0, 1, 2, 3, 4, 5, 6, 7, 8, 9].as_slice();
    let mut iter = PooledIter::<_, u8>::new(TestIter::new(data).unwrap(), 2);

    // Hold one buffer the entire time
    let first = iter.next().unwrap();
    assert_eq!(*first, 0);

    for i in 1..=9 {
        assert!(iter.valid());
        let next = iter.next().unwrap();
        // Both of the two buffers are in use
        assert!(iter.try_next().is_err());
        assert_eq!(*next, i);
    }
    drop(first);

    for i in (0..9).rev() {
        let current = iter.current();
        let prev = iter.prev().unwrap();

        // Both of the two buffers are in use
        assert!(iter.try_next().is_err());
        assert!(iter.valid());

        // This drops `current`
        assert!(!current.is_some_and(|curr| *curr == *prev));

        let new_current = iter.current().unwrap();

        assert_eq!(*prev, i);
        assert_eq!(*new_current, i);
    }
}

#[test]
fn pooled_iter_seek_test() {
    let data: &[u8] = [0, 1, 2, 3, 4, 5, 6, 7, 8, 9, 99].as_slice();
    let mut iter = PooledIter::<_, u8>::new(TestIter::new(data).unwrap(), 1);

    iter.seek_to_first();
    assert_eq!(*iter.current().unwrap(), 0);

    iter.seek(&0);
    assert_eq!(*iter.current().unwrap(), 0);

    iter.seek(&1);
    assert_eq!(*iter.current().unwrap(), 1);

    iter.seek(&9);
    assert_eq!(*iter.current().unwrap(), 9);

    iter.seek(&8);
    assert_eq!(*iter.current().unwrap(), 8);

    iter.seek(&10);
    assert_eq!(*iter.current().unwrap(), 99);

    iter.seek_before(&92);
    assert_eq!(*iter.current().unwrap(), 9);

    iter.seek_before(&99);
    assert_eq!(*iter.current().unwrap(), 9);

    iter.seek_before(&100);
    assert_eq!(*iter.current().unwrap(), 99);

    iter.seek_before(&1);
    assert_eq!(*iter.current().unwrap(), 0);

    iter.seek_before(&0);
    assert!(!iter.valid());

    iter.seek(&100);
    assert!(!iter.valid());

    iter.seek(&99);
    assert_eq!(*iter.current().unwrap(), 99);

    iter.seek_to_last();
    assert_eq!(*iter.current().unwrap(), 99);
}

#[test]
fn pool_of_two_runs_out_and_recovers() {
    let data: &[u8] = [10, 20, 30, 40].as_slice();
    let mut iter = PooledIter::<_, u8>::new(TestIter::new(data).unwrap(), 2);
    assert_eq!(iter.buffer_pool_size(), 2);
    assert_eq!(iter.available_buffers(), 2);

    let first = iter.next().unwrap();
    let second = iter.next().unwrap();
    assert_eq!(*first, 10);
    assert_eq!(*second, 20);
    assert_eq!(iter.available_buffers(), 0);

    // A refusal leaves the iterator where it was.
    assert!(matches!(iter.try_next(), Err(OutOfBuffers)));
    assert!(matches!(iter.try_current(), Err(OutOfBuffers)));
    assert!(matches!(iter.try_prev(), Err(OutOfBuffers)));

    drop(first);
    assert_eq!(iter.available_buffers(), 1);
    let third = iter.try_next().unwrap().unwrap();
    assert_eq!(*third, 30);
    assert_eq!(*second, 20);
    drop(third);

    let again = iter.try_current().unwrap().unwrap();
    assert_eq!(*again, 30);
    drop(again);
    let back = iter.try_prev().unwrap().unwrap();
    assert_eq!(*back, 20);
}

#[test]
fn try_next_at_the_end_gives_nothing() {
    let data: &[u8] = [7].as_slice();
    let mut iter = PooledIter::<_, u8>::new(TestIter::new(data).unwrap(), 1);
    assert!(iter.try_current().unwrap().is_none());
    assert_eq!(*iter.try_next().unwrap().unwrap(), 7);
    assert!(iter.try_next().unwrap().is_none());
    assert!(!iter.valid());
    // The cursor goes round: after the end comes the first entry again.
    assert_eq!(*iter.next().unwrap(), 7);
    assert!(iter.prev().is_none());
    assert_eq!(*iter.try_prev().unwrap().unwrap(), 7);
    assert!(iter.try_prev().unwrap().is_none());
}

#[test]
fn pool_items_can_be_written_to() {
    let data: &[u8] = [1, 2].as_slice();
    let mut iter = PooledIter::<_, u8>::new(TestIter::new(data).unwrap(), 1);
    let mut item = iter.next().unwrap();
    *item = 5;
    assert_eq!(*item, 5);
    let as_ref: &u8 = item.as_ref();
    assert_eq!(*as_ref, 5);
    let as_mut: &mut u8 = item.as_mut();
    *as_mut = 6;
    assert_eq!(*item, 6);
    drop(item);
    // The buffer is reused, and filled anew.
    assert_eq!(*iter.next().unwrap(), 2);
}

#[test]
fn out_of_buffers_says_what_happened() {
    assert_eq!(
        OutOfBuffers.to_string(),
        "a pooled iterator operation was not performed because there were no buffers available",
    );
}

#[test]
fn the_answer_of_the_pool_decides() {
    let data: &[u8] = [1, 2, 3].as_slice();
    let mut iter = PooledIter::<_, u8>::new(TestIter::new(data).unwrap(), 2);

    // Without a buffer nothing moves.
    assert!(matches!(iter.try_next_with(Err(ResourcePoolEmpty)), Err(OutOfBuffers)));
    assert!(!iter.valid());

    let first = iter.next().unwrap();
    assert_eq!(*first, 1);
    // With a buffer the iterator moves, and the buffer is filled anew.
    let second = iter.try_next_with(Ok(first)).unwrap().unwrap();
    assert_eq!(*second, 2);
    let again = iter.try_current_with(Ok(second)).unwrap().unwrap();
    assert_eq!(*again, 2);
    let back = iter.try_prev_with(Ok(again)).unwrap().unwrap();
    assert_eq!(*back, 1);

    assert!(matches!(iter.try_prev_with(Err(ResourcePoolEmpty)), Err(OutOfBuffers)));
    assert!(matches!(iter.try_current_with(Err(ResourcePoolEmpty)), Err(OutOfBuffers)));
    assert_eq!(*iter.current().unwrap(), 1);

    // Where the iterator comes to no entry, the buffer goes back unused.
    assert!(iter.try_prev_with(Ok(back)).unwrap().is_none());
    assert_eq!(iter.available_buffers(), 2);
}
