use vstd::prelude::*;

use crate::lender_adapter::LenderAdapter;
use crate::lending_iterator_adapter::LendingIteratorAdapter;
use crate::lending_iterator_support::{LendItem, LentItem};
use crate::pooled::{OutOfBuffers, PooledIterator};

verus! {

/// Where a cursor at `index` stands after one step forwards over `len` entries. The phantom
/// position is `len`: a step from it leads to the first entry, a step from the last entry
/// leads to it.
pub open spec fn index_after_next(index: int, len: int) -> int {
    if index >= len {
        0
    } else {
        index + 1
    }
}

/// Where a cursor at `index` stands after one step backwards over `len` entries. The phantom
/// position is `len`: a step from it leads to the last entry, a step from the first entry
/// leads to it.
pub open spec fn index_after_prev(index: int, len: int) -> int {
    if index <= 0 {
        len
    } else {
        index - 1
    }
}

/// The entry at `index`, or nothing where `index` is no index of an entry.
pub open spec fn entry_at<T>(entries: Seq<T>, index: int) -> Option<T> {
    if 0 <= index < entries.len() {
        Some(entries[index])
    } else {
        None
    }
}

/// A `CursorIterator` provides access to the entries of some sorted collection, and can move its
/// current position in either direction.
///
/// Conceptually, it is circular, and its initial position is before the first entry and after the
/// last entry. As such, it is not a fused iterator, as continuing to call `next()` at the
/// end of iteration wraps around to the start. (Note that if the collection is empty, then the
/// iterator will remain at that phantom position.)
///
/// Implementations may or may not be threadsafe. Even if an implementation is threadsafe,
/// newly-added entries may or may not be seen immediately by other threads.
///
/// Forwards iteration should be preferred over backwards iteration.
pub trait CursorIterator: Iterator {
    /// The item under the cursor, or nothing at the phantom position.
    spec fn peek(&self) -> Option<Self::Item>;

    /// Determine whether the iterator is currently at any value in the collection.
    /// If the iterator is invalid, then it is conceptually one position before the first entry
    /// and one position after the last entry. (Or, there may be no entries.)
    ///
    /// [`current()`] will be `Some` if and only if the iterator is valid.
    ///
    /// [`current()`]: CursorIterator::current
    fn valid(&self) -> (valid: bool)
        ensures
            valid == self.peek().is_some(),
    ;

    /// Get the current value the iterator is at, if the iterator is valid.
    fn current(&self) -> (item: Option<Self::Item>)
        ensures
            item == self.peek(),
    ;

    /// Move the iterator one position back, and return the entry at that position.
    /// Returns `None` if the iterator was at the first entry.
    fn prev(&mut self) -> (item: Option<Self::Item>)
        ensures
            item == final(self).peek(),
    ;
}

/// A `CursorLendingIterator` provides access to the entries of some sorted collection, and can
/// move its current position in either direction.
///
/// As a lending iterator, only one entry can be accessed at a time.
///
/// Conceptually, it is circular, and its initial position is before the first entry and after the
/// last entry. As such, continuing to call `next()` at the end of iteration wraps around to the
/// start. (If the collection is empty, the iterator remains at that phantom position.)
///
/// What every implementation owes is `peek`: the three methods that hand out an item hand out
/// what `peek` says. An implementation that is `plain` moreover is a cursor in the strict
/// sense: its entries are a fixed sequence, and `next` and `prev` move one index at a time.
pub trait CursorLendingIterator: for <'a>LendItem<'a> {
    /// The item under the cursor, or nothing at the phantom position.
    spec fn peek(&self) -> Option<LentItem<'_, Self>>;

    /// The entries of the collection, first to last.
    spec fn entries(&self) -> Seq<LentItem<'_, Self>>;

    /// The index in `entries` of the entry under the cursor; at the phantom position, the
    /// number of entries.
    spec fn index(&self) -> int;

    /// Whether this iterator keeps to the strict discipline of a cursor over `entries`.
    spec fn plain(&self) -> bool;

    /// Whether `self` and `other` are cursors over one and the same collection. What an
    /// implementation means by this is its own affair: the methods below say that a plain
    /// cursor stays with its collection, and a type that is also seekable can say what follows
    /// from that for its comparator.
    spec fn same_source(&self, other: &Self) -> bool;

    /// A plain cursor stands within its entries or at the phantom position, and the item under
    /// it is the entry at its index.
    proof fn plain_peek(&self)
        requires
            self.plain(),
        ensures
            0 <= self.index() <= self.entries().len(),
            self.peek() == entry_at(self.entries(), self.index()),
    ;

    /// Determine whether the iterator is currently at any value in the collection.
    ///
    /// [`current()`] will be `Some` if and only if the iterator is valid.
    ///
    /// [`current()`]: CursorLendingIterator::current
    fn valid(&self) -> (valid: bool)
        ensures
            valid == self.peek().is_some(),
    ;

    /// Move the iterator one position forwards, and return the entry at that position.
    /// Returns `None` if the iterator was at the last entry.
    fn next(&mut self) -> (item: Option<LentItem<'_, Self>>)
        ensures
            item == final(self).peek(),
            old(self).plain() ==> final(self).plain(),
            old(self).plain() ==> final(self).entries() == old(self).entries(),
            old(self).plain() ==> final(self).same_source(old(self)),
            old(self).plain() ==> final(self).index() == index_after_next(
                old(self).index(),
                old(self).entries().len() as int,
            ),
    ;

    /// Get the current value the iterator is at, if the iterator is valid.
    fn current(&self) -> (item: Option<LentItem<'_, Self>>)
        ensures
            item == self.peek(),
    ;

    /// Move the iterator one position back, and return the entry at that position.
    /// Returns `None` if the iterator was at the first entry.
    fn prev(&mut self) -> (item: Option<LentItem<'_, Self>>)
        ensures
            item == final(self).peek(),
            old(self).plain() ==> final(self).plain(),
            old(self).plain() ==> final(self).entries() == old(self).entries(),
            old(self).plain() ==> final(self).same_source(old(self)),
            old(self).plain() ==> final(self).index() == index_after_prev(
                old(self).index(),
                old(self).entries().len() as int,
            ),
    ;

    /// Convert the `CursorLendingIterator` into an adapter which a lending iterator of the
    /// `lender` crate can be made of.
    ///
    /// The seekability and access to cursor methods are preserved, though none of the
    /// `Cursor*Iterator` or `Seekable*Iterator` traits are implemented for the adaptor, in order
    /// to avoid conflicts with the `next()` method name.
    #[inline]
    #[must_use]
    fn into_lender(self) -> (adapter: LenderAdapter<Self>) where Self: Sized
        default_ensures
            adapter.inner() == self,
    {
        LenderAdapter::new(self)
    }

    /// Convert the `CursorLendingIterator` into an adapter which a lending iterator of the
    /// `lending_iterator` crate can be made of.
    ///
    /// The seekability and access to cursor methods are preserved, though none of the
    /// `Cursor*Iterator` or `Seekable*Iterator` traits are implemented for the adaptor, in order
    /// to avoid conflicts with the `next()` method name.
    #[inline]
    #[must_use]
    fn into_lending_iterator(self) -> (adapter: LendingIteratorAdapter<Self>) where Self: Sized
        default_ensures
            adapter.inner() == self,
    {
        LendingIteratorAdapter::new(self)
    }
}

/// A `CursorPooledIterator` provides access to the entries of some sorted collection, and can
/// move its current position in either direction.
///
/// The iterator is similar to a lending iterator (which can lend one item at a time), but can
/// make use of a buffer pool to lend out multiple items at a time.
///
/// Conceptually, it is circular, and its initial position is before the first entry and after the
/// last entry. As such, continuing to call `try_next()` at the end of iteration wraps around
/// to the start. (Note that if the collection is empty, then the iterator will remain at that
/// phantom position.)
///
/// Implementations may or may not be threadsafe. Even if an implementation is threadsafe,
/// newly-added entries may or may not be seen immediately by other threads.
///
/// Forwards iteration should be preferred over backwards iteration.
///
/// The methods here refuse where no buffer is free. One that panics or waits instead is for
/// the caller to make of them.
pub trait CursorPooledIterator: PooledIterator {
    /// Determine whether the iterator is currently at any value in the collection.
    /// If the iterator is invalid, then it is conceptually one position before the first entry
    /// and one position after the last entry. (Or, there may be no entries.)
    ///
    /// [`try_current()`] will give an item if and only if the iterator is valid and a buffer
    /// is available.
    ///
    /// [`try_current()`]: CursorPooledIterator::try_current
    fn valid(&self) -> (valid: bool)
        ensures
            valid == self.on_entry(),
    ;

    /// If a buffer is available, get the current value the iterator is at, if the iterator is
    /// valid.
    ///
    /// # Errors
    /// Returns an error if no buffers were available.
    fn try_current(&self) -> (item: Result<Option<Self::Item>, OutOfBuffers>)
        ensures
            item matches Ok(found) ==> found is Some == self.on_entry(),
    ;

    /// If a buffer is available, move the iterator one position back, and return the entry at
    /// that position. Returns `Ok(None)` if the iterator was at the first entry.
    ///
    /// # Errors
    /// Returns an error if no buffers were available. The iterator then is where it was.
    fn try_prev(&mut self) -> (item: Result<Option<Self::Item>, OutOfBuffers>)
        ensures
            item matches Ok(found) ==> found is Some == final(self).on_entry(),
            item is Err ==> final(self).on_entry() == old(self).on_entry(),
    ;
}

/// `after` is what `next` makes of `before`: if `before` is a plain cursor, a plain cursor over
/// the same entries of the same collection, one step on.
pub open spec fn moved_next<I: CursorLendingIterator>(before: &I, after: &I) -> bool {
    before.plain() ==> {
        &&& after.plain()
        &&& after.entries() == before.entries()
        &&& after.same_source(before)
        &&& after.index() == index_after_next(before.index(), before.entries().len() as int)
    }
}

/// `after` is what `prev` makes of `before`: if `before` is a plain cursor, a plain cursor over
/// the same entries of the same collection, one step back.
pub open spec fn moved_prev<I: CursorLendingIterator>(before: &I, after: &I) -> bool {
    before.plain() ==> {
        &&& after.plain()
        &&& after.entries() == before.entries()
        &&& after.same_source(before)
        &&& after.index() == index_after_prev(before.index(), before.entries().len() as int)
    }
}

} // verus!
