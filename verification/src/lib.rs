//! Iteration over sorted collections: cursors that move both ways, seeking by key, a merge of
//! several sorted sources into one, and iterators that lend several items at a time out of a
//! bounded pool of buffers.
//!
//! # Cursors
//! A cursor stands on an entry of its collection or at one phantom position, which is before
//! the first entry and after the last. [`CursorLendingIterator`] lends the entry under the
//! cursor for as long as the cursor is not moved, [`CursorPooledIterator`] copies it into a
//! buffer of a pool, [`CursorIterator`] hands it out by value. [`Seekable`] adds the moves to
//! a key, and [`ItemToKey`] the key of an item.
//!
//! What every cursor owes is in the contracts of these traits. A cursor that is
//! [`plain`](CursorLendingIterator::plain) owes more: its entries are a fixed sequence and each
//! step is a step of one index, round the phantom position. In the same way an iterator that
//! is [`sorted`](Seekable::sorted) has a fixed sequence of keys in the order of its comparator,
//! among which its seeks land.
//!
//! # The merge
//! [`MergingIter`] makes one cursor of several. Its methods say what they do to the
//! components, for any components and any comparator. For components that are plain cursors
//! and a comparator that is a total order, they say where the merge comes to stand in the
//! order of all keys, and the laws in [`merging_laws`] and on [`MergingIter`] itself state
//! what follows: that no key is passed over, whatever the changes of direction, and that a
//! pass in one direction yields every entry once, in order.
//!
//! # Pooled iterators
//! [`PooledIter`] and [`ThreadsafePooledIter`] copy the entries of a lending cursor into the
//! buffers of a pool of the crate `anchored_pool`, so that several can be held at a time.
//! Their methods refuse where no buffer is free. Whether to panic or to wait instead is left
//! to the caller, who can take a buffer from the pool in the way that does so and hand it to
//! the method that takes the answer of the pool.

mod comparator;
mod cursor;
mod lender_adapter;
mod lending_iterator_adapter;
mod lending_iterator_support;
mod merging_iter;
pub mod merging_laws;
mod merging_order;
mod merging_pass;
pub mod merging_rank;
pub mod merging_spec;
mod pooled;
mod pooled_iter;
pub mod ranking;
mod seekable;
mod seekable_iterators;
pub mod tally;
mod test_iter;
mod threadsafe_pooled_iter;

pub use self::comparator::{
    default_order_u8, equiv, follows, gt, le, lt, precedes, same_order, ties, total_order,
    total_order_chain, Comparator, DefaultComparator,
};
pub use self::cursor::{
    entry_at, index_after_next, index_after_prev, moved_next, moved_prev, CursorIterator,
    CursorLendingIterator, CursorPooledIterator,
};
pub use self::lender_adapter::{LenderAdapter, PooledLenderAdapter};
pub use self::lending_iterator_adapter::{LendingIteratorAdapter, PooledLendingIteratorAdapter};
pub use self::lending_iterator_support::{ImplyBound, LendItem, LentItem};
pub use self::merging_iter::MergingIter;
pub use self::pooled::{OutOfBuffers, PooledIterator, PooledIteratorAdapters};
pub use self::pooled_iter::{PoolItem, PooledIter};
pub use self::seekable::{
    in_order, same_keys, seek_before_lands, seek_lands, sought, sought_before, sought_first,
    sought_last, was_reset, ItemToKey, Seekable,
};
pub use self::seekable_iterators::{
    SeekableIterator, SeekableLendingIterator, SeekablePooledIterator,
};
pub use self::test_iter::{
    first_above, first_at_least, has_no_repeats, increasing_is_sorted, is_sorted, lower_bound,
    no_repeats, non_decreasing, seek_before_index, seek_index, strictly_increasing,
    test_iter_is_kindred, upper_bound, TestIter,
};
pub use self::threadsafe_pooled_iter::{ThreadsafePoolItem, ThreadsafePooledIter};
