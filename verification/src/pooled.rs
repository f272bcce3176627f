use std::borrow::{Borrow, ToOwned};
use vstd::prelude::*;

use crate::lender_adapter::PooledLenderAdapter;
use crate::lending_iterator_adapter::PooledLendingIteratorAdapter;

verus! {

/// `Borrow::borrow`: what `item` borrows as a `BorrowedItem`.
#[verifier::external_body]
pub(crate) fn borrowed<BorrowedItem: ?Sized, Item: Borrow<BorrowedItem>>(
    item: &Item,
) -> &BorrowedItem {
    item.borrow()
}

/// `ToOwned::clone_into`: make `buffer` an owned copy of `source`, in place.
#[verifier::external_body]
pub(crate) fn clone_into<BorrowedItem: ?Sized + ToOwned>(
    source: &BorrowedItem,
    buffer: &mut BorrowedItem::Owned,
) {
    source.clone_into(buffer);
}

/// A `PooledIterator` is similar to a lending iterator (which can lend one item at a time), but
/// can make use of a buffer pool to lend out multiple items at a time.
///
/// Implementations may or may not be threadsafe. Even if an implementation is threadsafe,
/// items newly-added to the backing collection of the iterator may or may not be seen
/// immediately by other threads.
///
/// How many buffers an iterator has, and how many of them are free, is no part of what it
/// says of itself here: a buffer comes back when its item is dropped, which is no call on the
/// iterator. For the same reason the methods here are those that refuse where no buffer is
/// free; one that panics or waits instead is for the caller to make of them.
pub trait PooledIterator {
    /// The item of this iterator, which likely has a nontrivial drop implementation that returns
    /// a buffer to the iterator's buffer pool.
    type Item;

    /// Whether the iterator stands on an entry of its collection.
    spec fn on_entry(&self) -> bool;

    /// If a buffer is available, move the iterator one position forwards, and return the entry at
    /// that position. Returns `Ok(None)` if the iterator was at the last entry.
    ///
    /// # Errors
    /// Returns an error if no buffers were available. The iterator then is where it was.
    fn try_next(&mut self) -> (item: Result<Option<Self::Item>, OutOfBuffers>)
        ensures
            item matches Ok(found) ==> found is Some == final(self).on_entry(),
            item is Err ==> final(self).on_entry() == old(self).on_entry(),
    ;

    /// Get the total number of buffers in the buffer pool, including buffers that are
    /// currently in use.
    fn buffer_pool_size(&self) -> usize;

    /// Get the number of buffers that are currently available.
    ///
    /// In multithreaded scenarios, the returned value could change at any time.
    fn available_buffers(&self) -> usize;
}

/// The conversions of a [`PooledIterator`] into the adapters that hold one of its items at a
/// time. Every `PooledIterator` has them.
pub trait PooledIteratorAdapters: PooledIterator + Sized {
    /// Convert the `PooledIterator` into an adapter which a lending iterator of the `lender`
    /// crate can be made of, and which only uses one buffer at a time.
    ///
    /// The seekability and access to cursor methods are preserved, though none of the
    /// `Cursor*Iterator` or `Seekable*Iterator` traits are implemented for the adaptor, in order
    /// to avoid conflicts with the `next()` method name.
    #[must_use]
    fn into_lender(self) -> (adapter: PooledLenderAdapter<Self>)
        ensures
            adapter.inner() == self,
            adapter.held() is None,
    ;

    /// Convert the `PooledIterator` into an adapter which a lending iterator of the
    /// `lending_iterator` crate can be made of, and which only uses one buffer at a time.
    ///
    /// The seekability and access to cursor methods are preserved, though none of the
    /// `Cursor*Iterator` or `Seekable*Iterator` traits are implemented for the adaptor, in order
    /// to avoid conflicts with the `next()` method name.
    #[must_use]
    fn into_lending_iterator(self) -> (adapter: PooledLendingIteratorAdapter<Self>)
        ensures
            adapter.inner() == self,
            adapter.held() is None,
    ;
}

impl<I: PooledIterator> PooledIteratorAdapters for I {
    #[inline]
    fn into_lender(self) -> (adapter: PooledLenderAdapter<Self>) {
        PooledLenderAdapter::new(self)
    }

    #[inline]
    fn into_lending_iterator(self) -> (adapter: PooledLendingIteratorAdapter<Self>) {
        PooledLendingIteratorAdapter::new(self)
    }
}

/// An error that may be returned if no buffer pools were available in a [`PooledIterator`],
/// instead of waiting for a buffer to become available.
#[derive(Debug, Clone, Copy)]
pub struct OutOfBuffers;

impl OutOfBuffers {
    /// What the error says.
    pub open spec fn text() -> Seq<char> {
        "a pooled iterator operation was not performed because there were no buffers available"@
    }

    /// What the error says, in place of `Display`.
    pub fn to_string(&self) -> (message: String)
        ensures
            message@ == Self::text(),
    {
        "a pooled iterator operation was not performed because there were no buffers available"
            .to_owned()
    }
}

} // verus!
