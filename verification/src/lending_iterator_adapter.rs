use vstd::prelude::*;

use crate::comparator::Comparator;
use crate::cursor::{moved_prev, CursorLendingIterator, CursorPooledIterator};
use crate::lending_iterator_support::LentItem;
use crate::pooled::{OutOfBuffers, PooledIterator};
use crate::seekable::Seekable;

verus! {

/// An adapter for [`CursorLendingIterator`] which a lending iterator of the `lending_iterator`
/// crate is made of.
///
/// To avoid conflicts between the `next` of that crate and `CursorLendingIterator::next`,
/// the `CursorLendingIterator` is not implemented for the adapter; however,
/// the other cursor methods (`valid`, `current`, `prev`) are implemented, and [`Seekable`]
/// is implemented if `I: Seekable`.
#[derive(Debug, Clone, PartialEq, Eq)]
pub struct LendingIteratorAdapter<I>(I);

impl<I> LendingIteratorAdapter<I> {
    /// The iterator that the adapter holds.
    pub closed spec fn inner(&self) -> I {
        self.0
    }

    /// An adapter that holds `iter`.
    #[inline]
    #[must_use]
    pub fn new(iter: I) -> (adapter: Self)
        ensures
            adapter.inner() == iter,
    {
        Self(iter)
    }

    /// Convert the adapter back into the inner iterator.
    #[inline]
    #[must_use]
    pub fn into_inner(self) -> (iter: I)
        ensures
            iter == self.inner(),
    {
        self.0
    }
}

impl<I: CursorLendingIterator> LendingIteratorAdapter<I> {
    /// Determine whether the iterator is currently at any value in the collection.
    ///
    /// See [`CursorLendingIterator::valid()`].
    #[inline]
    #[must_use]
    pub fn valid(&self) -> (valid: bool)
        ensures
            valid == self.inner().peek().is_some(),
    {
        self.0.valid()
    }

    /// Get the current value the iterator is at.
    ///
    /// See [`CursorLendingIterator::current()`].
    #[inline]
    #[must_use]
    pub fn current(&self) -> (item: Option<LentItem<'_, I>>)
        ensures
            item == self.inner().peek(),
    {
        self.0.current()
    }

    /// Move the iterator one position back, and return the entry at that position.
    /// Returns `None` if the iterator was at the first entry.
    ///
    /// See [`CursorLendingIterator::prev()`].
    #[inline]
    #[must_use]
    pub fn prev(&mut self) -> (item: Option<LentItem<'_, I>>)
        ensures
            item == final(self).inner().peek(),
            moved_prev(&old(self).inner(), &final(self).inner()),
    {
        self.0.prev()
    }
}

impl<Key, Cmp, I> Seekable<Key, Cmp> for LendingIteratorAdapter<I> where
    Key: ?Sized,
    Cmp: ?Sized + Comparator<Key>,
    I: Seekable<Key, Cmp>,
 {
    open spec fn keys(&self) -> Seq<&Key> {
        self.inner().keys()
    }

    open spec fn place(&self) -> int {
        self.inner().place()
    }

    open spec fn comparator(&self) -> &Cmp {
        self.inner().comparator()
    }

    open spec fn sorted(&self) -> bool {
        self.inner().sorted()
    }

    open spec fn same_collection(&self, other: &Self) -> bool {
        self.inner().same_collection(&other.inner())
    }

    proof fn sorted_keys(&self) {
        self.inner().sorted_keys();
    }

    #[inline]
    fn reset(&mut self) {
        self.0.reset();
    }

    #[inline]
    fn seek(&mut self, min_bound: &Key) {
        self.0.seek(min_bound);
    }

    #[inline]
    fn seek_before(&mut self, strict_upper_bound: &Key) {
        self.0.seek_before(strict_upper_bound);
    }

    #[inline]
    fn seek_to_first(&mut self) {
        self.0.seek_to_first();
    }

    #[inline]
    fn seek_to_last(&mut self) {
        self.0.seek_to_last();
    }
}

/// An adapter for [`PooledIterator`] which a lending iterator of the `lending_iterator` crate
/// is made of, and which holds one item of the iterator at a time.
///
/// The `PooledIterator` is not implemented for the adapter; however, the cursor methods
/// `valid` and `current` are implemented if `I: CursorPooledIterator`, and [`Seekable`]
/// is implemented if `I: Seekable`. The adapter moves by `try_next` and `try_prev`, which
/// refuse where no buffer is free.
#[derive(Debug, Clone, PartialEq, Eq)]
pub struct PooledLendingIteratorAdapter<I: PooledIterator> {
    iter: I,
    item: Option<I::Item>,
}

impl<I: PooledIterator> PooledLendingIteratorAdapter<I> {
    /// The iterator that the adapter holds.
    pub closed spec fn inner(&self) -> I {
        self.iter
    }

    /// The item that the adapter holds: what the last move of the iterator gave.
    pub closed spec fn held(&self) -> Option<I::Item> {
        self.item
    }

    /// An adapter that holds `iter`, and no item yet.
    #[inline]
    #[must_use]
    pub fn new(iter: I) -> (adapter: Self)
        ensures
            adapter.inner() == iter,
            adapter.held() is None,
    {
        Self { iter, item: None }
    }

    /// Convert the adapter back into the inner iterator.
    #[inline]
    #[must_use]
    pub fn into_inner(self) -> (iter: I)
        ensures
            iter == self.inner(),
    {
        self.iter
    }

    /// If a buffer is available, move the iterator one position forwards, and return the entry
    /// at that position, which the adapter then holds. Returns `Ok(None)` if the iterator
    /// was at the last entry.
    ///
    /// The item that the adapter held is dropped first, so that its buffer is free.
    ///
    /// # Errors
    /// Returns an error if the iterator gave one, as it does if no buffers were available.
    /// The iterator then is where it was, and the adapter holds no item.
    pub fn try_next(&mut self) -> (item: Result<Option<&I::Item>, OutOfBuffers>)
        ensures
            exists|inner: &mut I, answer: Result<Option<I::Item>, OutOfBuffers>|
                {
                    &&& *inner == old(self).inner()
                    &&& *final(inner) == final(self).inner()
                    &&& #[trigger] call_ensures(<I as PooledIterator>::try_next, (inner,), answer)
                    &&& item is Err == answer is Err
                    &&& final(self).held() == match answer {
                        Ok(given) => given,
                        Err(_) => None,
                    }
                },
            item is Err ==> final(self).inner().on_entry() == old(self).inner().on_entry(),
            item is Ok ==> final(self).held() is Some == final(self).inner().on_entry(),
            item matches Ok(found) ==> found is Some == final(self).held() is Some,
            item matches Ok(Some(lent)) ==> *lent == final(self).held().unwrap(),
    {
        // Make sure any previous item is dropped
        self.item = None;
        match self.iter.try_next() {
            Ok(found) => {
                self.item = found;
                Ok(self.item.as_ref())
            },
            Err(refused) => Err(refused),
        }
    }
}

impl<I: CursorPooledIterator> PooledLendingIteratorAdapter<I> {
    /// Determine whether the iterator is currently at any value in the collection.
    ///
    /// See [`CursorPooledIterator::valid()`].
    #[inline]
    #[must_use]
    pub fn valid(&self) -> (valid: bool)
        ensures
            valid == self.inner().on_entry(),
    {
        self.iter.valid()
    }

    /// Get the current value the iterator is at: the item that the adapter holds.
    ///
    /// This is cheap, and does not require getting a new buffer.
    #[inline]
    #[must_use]
    pub fn current(&self) -> (item: Option<&I::Item>)
        ensures
            item is Some == self.held() is Some,
            item matches Some(lent) ==> *lent == self.held().unwrap(),
    {
        self.item.as_ref()
    }

    /// If a buffer is available, move the iterator one position back, and return the entry at
    /// that position, which the adapter then holds. Returns `Ok(None)` if the iterator was at
    /// the first entry.
    ///
    /// The item that the adapter held is dropped first, so that its buffer is free.
    ///
    /// # Errors
    /// Returns an error if the iterator gave one, as it does if no buffers were available.
    /// The iterator then is where it was, and the adapter holds no item.
    pub fn try_prev(&mut self) -> (item: Result<Option<&I::Item>, OutOfBuffers>)
        ensures
            exists|inner: &mut I, answer: Result<Option<I::Item>, OutOfBuffers>|
                {
                    &&& *inner == old(self).inner()
                    &&& *final(inner) == final(self).inner()
                    &&& #[trigger] call_ensures(<I as CursorPooledIterator>::try_prev, (inner,), answer)
                    &&& item is Err == answer is Err
                    &&& final(self).held() == match answer {
                        Ok(given) => given,
                        Err(_) => None,
                    }
                },
            item is Err ==> final(self).inner().on_entry() == old(self).inner().on_entry(),
            item is Ok ==> final(self).held() is Some == final(self).inner().on_entry(),
            item matches Ok(found) ==> found is Some == final(self).held() is Some,
            item matches Ok(Some(lent)) ==> *lent == final(self).held().unwrap(),
    {
        // Make sure any previous item is dropped
        self.item = None;
        match self.iter.try_prev() {
            Ok(found) => {
                self.item = found;
                Ok(self.item.as_ref())
            },
            Err(refused) => Err(refused),
        }
    }
}

impl<Key, Cmp, I> Seekable<Key, Cmp> for PooledLendingIteratorAdapter<I> where
    Key: ?Sized,
    Cmp: ?Sized + Comparator<Key>,
    I: Seekable<Key, Cmp> + PooledIterator,
 {
    open spec fn keys(&self) -> Seq<&Key> {
        self.inner().keys()
    }

    open spec fn place(&self) -> int {
        self.inner().place()
    }

    open spec fn comparator(&self) -> &Cmp {
        self.inner().comparator()
    }

    open spec fn sorted(&self) -> bool {
        self.inner().sorted()
    }

    open spec fn same_collection(&self, other: &Self) -> bool {
        self.inner().same_collection(&other.inner())
    }

    proof fn sorted_keys(&self) {
        self.inner().sorted_keys();
    }

    #[inline]
    fn reset(&mut self) {
        self.iter.reset();
    }

    #[inline]
    fn seek(&mut self, min_bound: &Key) {
        self.iter.seek(min_bound);
    }

    #[inline]
    fn seek_before(&mut self, strict_upper_bound: &Key) {
        self.iter.seek_before(strict_upper_bound);
    }

    #[inline]
    fn seek_to_first(&mut self) {
        self.iter.seek_to_first();
    }

    #[inline]
    fn seek_to_last(&mut self) {
        self.iter.seek_to_last();
    }
}

} // verus!
