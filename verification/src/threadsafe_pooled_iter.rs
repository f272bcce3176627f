use std::borrow::{Borrow, BorrowMut, ToOwned};
use std::ops::{Deref, DerefMut};
use vstd::prelude::*;

use anchored_pool::{PooledResource, ResetNothing, ResourcePoolEmpty, SharedBoundedPool};

use crate::comparator::Comparator;
use crate::cursor::{moved_next, moved_prev, CursorLendingIterator, CursorPooledIterator};
use crate::lending_iterator_support::LentItem;
use crate::pooled::{borrowed, clone_into, OutOfBuffers, PooledIterator};
use crate::seekable::Seekable;

verus! {

/// A pool of a fixed number of resources that threads can share, of the crate
/// `anchored_pool`. What is in it is nothing that a contract here speaks of.
#[verifier::external_type_specification]
#[verifier::external_body]
#[verifier::reject_recursive_types(Resource)]
#[verifier::reject_recursive_types(Reset)]
pub struct ExSharedBoundedPool<Resource, Reset>(SharedBoundedPool<Resource, Reset>);

/// Convert a [`CursorLendingIterator`] into a [`CursorPooledIterator`] by storing recently
/// accessed items in reusable buffers.
///
/// This effectively allows the iterator to lend out multiple items at once, unlike a lending
/// iterator which can only lend out one. This comes primarily at the cost of extra copying
/// into buffers, and in memory usage. The costs of allocating buffers is likely amortized by
/// their reuse.
///
/// The buffers of a `ThreadsafePooledIter` can be returned from any thread: an item that is
/// dropped on another thread frees a buffer for this one. The methods here refuse where no
/// buffer is free. Who would rather wait takes the buffer from
/// [`ThreadsafePooledIter::buffer_pool`] with `SharedBoundedPool::get`, and hands it to the
/// method that takes the answer of the pool.
///
/// # What is said of the buffers
/// The pool and what is in its buffers are outside what is verified here, and which buffers
/// are free changes whenever an item is dropped. So the contracts do not say what a buffer
/// holds, nor when one is free: they say which call has given a result. An item that is
/// handed out is a buffer that the pool has given, into which `ToOwned::clone_into` has
/// written what the entry borrows; a refusal is the refusal of the pool.
#[derive(Debug)]
pub struct ThreadsafePooledIter<I, BorrowedItem: ToOwned> {
    iter: I,
    pool: SharedBoundedPool<BorrowedItem::Owned, ResetNothing>,
}

/// The type of an item returned by [`ThreadsafePooledIter`]: a resource of its pool.
///
/// The owned item buffer is returned to the [`ThreadsafePooledIter`] when the
/// `ThreadsafePoolItem` is dropped.
#[derive(Debug)]
#[verifier::external_body]
#[verifier::reject_recursive_types(OwnedItem)]
pub struct ThreadsafePoolItem<OwnedItem>(
    pub PooledResource<SharedBoundedPool<OwnedItem, ResetNothing>, OwnedItem>,
);

/// `SharedBoundedPool::new_default_without_reset`: a pool of `num_buffers` resources, each
/// the default value of its type.
#[verifier::external_body]
fn new_pool<OwnedItem: Default>(num_buffers: usize) -> SharedBoundedPool<
    OwnedItem,
    ResetNothing,
> {
    SharedBoundedPool::new_default_without_reset(num_buffers)
}

/// `SharedBoundedPool::try_get`: a resource of the pool, or the error if none is left. Which
/// of the two depends on the items that are alive, and nothing is said of it here.
#[verifier::external_body]
fn try_get<OwnedItem>(pool: &SharedBoundedPool<OwnedItem, ResetNothing>) -> Result<
    ThreadsafePoolItem<OwnedItem>,
    ResourcePoolEmpty,
> {
    match pool.try_get() {
        Ok(resource) => Ok(ThreadsafePoolItem(resource)),
        Err(empty) => Err(empty),
    }
}

/// `SharedBoundedPool::pool_size`: the number of resources of the pool, in use or not.
#[verifier::external_body]
fn pool_size<OwnedItem>(pool: &SharedBoundedPool<OwnedItem, ResetNothing>) -> usize {
    pool.pool_size()
}

/// `SharedBoundedPool::available_resources`: the number of resources of the pool that are not
/// in use. It depends on the items that are alive, and nothing is said of it here.
#[verifier::external_body]
fn available_resources<OwnedItem>(pool: &SharedBoundedPool<OwnedItem, ResetNothing>) -> usize {
    pool.available_resources()
}

impl<I, BorrowedItem> ThreadsafePooledIter<I, BorrowedItem> where
    BorrowedItem: ToOwned,
    BorrowedItem::Owned: Default,
 {
    /// The pool of this iterator is what `SharedBoundedPool::new_default_without_reset` has
    /// given for `num_buffers`.
    pub closed spec fn pool_made_for(&self, num_buffers: usize) -> bool {
        call_ensures(new_pool::<BorrowedItem::Owned>, (num_buffers,), self.pool)
    }

    /// Create a `ThreadsafePooledIter` that can lend out up to `num_buffers` items at a time.
    #[must_use]
    pub fn new(iter: I, num_buffers: usize) -> (pooled: Self)
        ensures
            pooled.inner() == iter,
            pooled.pool_made_for(num_buffers),
    {
        let pool = new_pool(num_buffers);

        Self { iter, pool }
    }

    /// Whether the pool was made for a number of buffers goes by the pool alone: an iterator
    /// that has moved is still one whose pool was made for that number.
    pub proof fn made_for_goes_by_the_pool(&self, other: &Self, num_buffers: usize)
        requires
            self.pool() == other.pool(),
        ensures
            self.pool_made_for(num_buffers) == other.pool_made_for(num_buffers),
    {
    }
}

impl<I, BorrowedItem: ToOwned> ThreadsafePooledIter<I, BorrowedItem> {
    /// The iterator that the items are copied from.
    pub closed spec fn inner(&self) -> I {
        self.iter
    }

    /// The pool that the buffers come from.
    pub closed spec fn pool(&self) -> &SharedBoundedPool<BorrowedItem::Owned, ResetNothing> {
        &self.pool
    }

    /// `answer` is what `SharedBoundedPool::try_get` has given for the pool of this iterator: a
    /// buffer of the pool, or the error that none is free.
    pub closed spec fn pool_answers(
        &self,
        answer: Result<ThreadsafePoolItem<BorrowedItem::Owned>, ResourcePoolEmpty>,
    ) -> bool {
        call_ensures(try_get::<BorrowedItem::Owned>, (&self.pool,), answer)
    }

    /// `count` is what `SharedBoundedPool::available_resources` has given for the pool of
    /// this iterator: the number of its buffers that were free.
    pub closed spec fn pool_counts(&self, count: usize) -> bool {
        call_ensures(available_resources::<BorrowedItem::Owned>, (&self.pool,), count)
    }

    /// `size` is what `SharedBoundedPool::pool_size` has given for the pool of this iterator:
    /// the number of its buffers.
    pub closed spec fn pool_sizes(&self, size: usize) -> bool {
        call_ensures(pool_size::<BorrowedItem::Owned>, (&self.pool,), size)
    }

    /// What the pool has answered goes by the pool alone, wherever the iterator stands.
    pub proof fn answers_go_by_the_pool(
        &self,
        other: &Self,
        answer: Result<ThreadsafePoolItem<BorrowedItem::Owned>, ResourcePoolEmpty>,
        count: usize,
        size: usize,
    )
        requires
            self.pool() == other.pool(),
        ensures
            self.pool_answers(answer) == other.pool_answers(answer),
            self.pool_counts(count) == other.pool_counts(count),
            self.pool_sizes(size) == other.pool_sizes(size),
    {
    }

    /// The pool that the buffers come from: for one who asks it for a buffer in a way that
    /// can wait, and hands the buffer to `try_next_with`, `try_current_with` or
    /// `try_prev_with`.
    pub fn buffer_pool(&self) -> (pool: &SharedBoundedPool<BorrowedItem::Owned, ResetNothing>)
        ensures
            pool == self.pool(),
    {
        &self.pool
    }
}

impl<I, BorrowedItem> ThreadsafePooledIter<I, BorrowedItem> where
    I: CursorLendingIterator,
    BorrowedItem: ToOwned,
    for <'lend>LentItem<'lend, I>: Borrow<BorrowedItem>,
 {
    /// `entry` has been copied into the buffer of the item on loan: `DerefMut::deref_mut` has
    /// lent `target` from `loan`, `Borrow::borrow` has given `source` for `entry`, and
    /// `ToOwned::clone_into` has written `source` into `target`.
    pub closed spec fn copied(
        entry: LentItem<'_, I>,
        loan: &mut ThreadsafePoolItem<BorrowedItem::Owned>,
        target: &mut BorrowedItem::Owned,
        source: &BorrowedItem,
    ) -> bool {
        &&& call_ensures(
            <ThreadsafePoolItem<BorrowedItem::Owned> as DerefMut>::deref_mut,
            (loan,),
            target,
        )
        &&& call_ensures(borrowed::<BorrowedItem, LentItem<'_, I>>, (&entry,), source)
        &&& call_ensures(clone_into::<BorrowedItem>, (source, target), ())
    }

    /// Where the three calls that copy an entry were made on a loan of `given` that left
    /// `filled`, the entry has been copied into `filled`.
    proof fn copy_is_made(
        entry: LentItem<'_, I>,
        given: ThreadsafePoolItem<BorrowedItem::Owned>,
        filled: ThreadsafePoolItem<BorrowedItem::Owned>,
    )
        requires
            exists|
                loan: &mut ThreadsafePoolItem<BorrowedItem::Owned>,
                target: &mut BorrowedItem::Owned,
                source: &BorrowedItem,
            |
                {
                    &&& *loan == given
                    &&& *final(loan) == filled
                    &&& #[trigger] call_ensures(
                        <ThreadsafePoolItem<BorrowedItem::Owned> as DerefMut>::deref_mut,
                        (loan,),
                        target,
                    )
                    &&& #[trigger] call_ensures(
                        borrowed::<BorrowedItem, LentItem<'_, I>>,
                        (&entry,),
                        source,
                    )
                    &&& #[trigger] call_ensures(clone_into::<BorrowedItem>, (source, target), ())
                },
        ensures
            exists|
                loan: &mut ThreadsafePoolItem<BorrowedItem::Owned>,
                target: &mut BorrowedItem::Owned,
                source: &BorrowedItem,
            |
                {
                    &&& *loan == given
                    &&& *final(loan) == filled
                    &&& #[trigger] Self::copied(entry, loan, target, source)
                },
    {
        let (loan, target, source) = choose|
            loan: &mut ThreadsafePoolItem<BorrowedItem::Owned>,
            target: &mut BorrowedItem::Owned,
            source: &BorrowedItem,
        |
            {
                &&& *loan == given
                &&& *final(loan) == filled
                &&& #[trigger] call_ensures(
                    <ThreadsafePoolItem<BorrowedItem::Owned> as DerefMut>::deref_mut,
                    (loan,),
                    target,
                )
                &&& #[trigger] call_ensures(
                    borrowed::<BorrowedItem, LentItem<'_, I>>,
                    (&entry,),
                    source,
                )
                &&& #[trigger] call_ensures(clone_into::<BorrowedItem>, (source, target), ())
            };
        assert(Self::copied(entry, loan, target, source));
    }

    /// Move the iterator one position forwards without lending the entry at that position,
    /// and tell whether there is one.
    pub fn move_next(&mut self) -> (valid: bool)
        ensures
            final(self).pool() == old(self).pool(),
            moved_next(&old(self).inner(), &final(self).inner()),
            valid == final(self).inner().peek() is Some,
    {
        self.iter.next().is_some()
    }

    /// Move the iterator one position back without lending the entry at that position, and
    /// tell whether there is one.
    pub fn move_prev(&mut self) -> (valid: bool)
        ensures
            final(self).pool() == old(self).pool(),
            moved_prev(&old(self).inner(), &final(self).inner()),
            valid == final(self).inner().peek() is Some,
    {
        self.iter.prev().is_some()
    }

    /// What `try_next` does once the pool has answered. With a buffer, move the iterator one
    /// position forwards, and return the entry at that position in the buffer, or nothing if
    /// there is none. Without one, leave the iterator where it is, and say so.
    pub fn try_next_with(
        &mut self,
        buffer: Result<ThreadsafePoolItem<BorrowedItem::Owned>, ResourcePoolEmpty>,
    ) -> (item: Result<Option<ThreadsafePoolItem<BorrowedItem::Owned>>, OutOfBuffers>)
        ensures
            final(self).pool() == old(self).pool(),
            item is Err == buffer is Err,
            item is Err ==> final(self).inner() == old(self).inner(),
            item is Ok ==> moved_next(&old(self).inner(), &final(self).inner()),
            item matches Ok(found) ==> found is Some == final(self).inner().peek() is Some,
            item matches Ok(Some(filled)) ==> exists|
                loan: &mut ThreadsafePoolItem<BorrowedItem::Owned>,
                target: &mut BorrowedItem::Owned,
                source: &BorrowedItem,
            |
                {
                    &&& buffer == Ok::<_, ResourcePoolEmpty>(*loan)
                    &&& *final(loan) == filled
                    &&& #[trigger] Self::copied(
                        final(self).inner().peek().unwrap(),
                        loan,
                        target,
                        source,
                    )
                },
    {
        let mut buffer = match buffer {
            Ok(buffer) => buffer,
            Err(_) => {
                return Err(OutOfBuffers);
            },
        };

        if let Some(item) = self.iter.next() {
            let ghost given = buffer;
            clone_into::<BorrowedItem>(
                borrowed::<BorrowedItem, LentItem<'_, I>>(&item),
                buffer.deref_mut(),
            );
            proof {
                Self::copy_is_made(item, given, buffer);
            }
            Ok(Some(buffer))
        } else {
            Ok(None)
        }
    }

    /// What `try_current` does once the pool has answered. With a buffer, return the entry
    /// that the iterator is at in the buffer, or nothing if it is at none. Without one, say
    /// so.
    pub fn try_current_with(
        &self,
        buffer: Result<ThreadsafePoolItem<BorrowedItem::Owned>, ResourcePoolEmpty>,
    ) -> (item: Result<Option<ThreadsafePoolItem<BorrowedItem::Owned>>, OutOfBuffers>)
        ensures
            item is Err == buffer is Err,
            item matches Ok(found) ==> found is Some == self.inner().peek() is Some,
            item matches Ok(Some(filled)) ==> exists|
                loan: &mut ThreadsafePoolItem<BorrowedItem::Owned>,
                target: &mut BorrowedItem::Owned,
                source: &BorrowedItem,
            |
                {
                    &&& buffer == Ok::<_, ResourcePoolEmpty>(*loan)
                    &&& *final(loan) == filled
                    &&& #[trigger] Self::copied(
                        self.inner().peek().unwrap(),
                        loan,
                        target,
                        source,
                    )
                },
    {
        let mut buffer = match buffer {
            Ok(buffer) => buffer,
            Err(_) => {
                return Err(OutOfBuffers);
            },
        };

        if let Some(item) = self.iter.current() {
            let ghost given = buffer;
            clone_into::<BorrowedItem>(
                borrowed::<BorrowedItem, LentItem<'_, I>>(&item),
                buffer.deref_mut(),
            );
            proof {
                Self::copy_is_made(item, given, buffer);
            }
            Ok(Some(buffer))
        } else {
            Ok(None)
        }
    }

    /// What `try_prev` does once the pool has answered. With a buffer, move the iterator one
    /// position back, and return the entry at that position in the buffer, or nothing if
    /// there is none. Without one, leave the iterator where it is, and say so.
    pub fn try_prev_with(
        &mut self,
        buffer: Result<ThreadsafePoolItem<BorrowedItem::Owned>, ResourcePoolEmpty>,
    ) -> (item: Result<Option<ThreadsafePoolItem<BorrowedItem::Owned>>, OutOfBuffers>)
        ensures
            final(self).pool() == old(self).pool(),
            item is Err == buffer is Err,
            item is Err ==> final(self).inner() == old(self).inner(),
            item is Ok ==> moved_prev(&old(self).inner(), &final(self).inner()),
            item matches Ok(found) ==> found is Some == final(self).inner().peek() is Some,
            item matches Ok(Some(filled)) ==> exists|
                loan: &mut ThreadsafePoolItem<BorrowedItem::Owned>,
                target: &mut BorrowedItem::Owned,
                source: &BorrowedItem,
            |
                {
                    &&& buffer == Ok::<_, ResourcePoolEmpty>(*loan)
                    &&& *final(loan) == filled
                    &&& #[trigger] Self::copied(
                        final(self).inner().peek().unwrap(),
                        loan,
                        target,
                        source,
                    )
                },
    {
        let mut buffer = match buffer {
            Ok(buffer) => buffer,
            Err(_) => {
                return Err(OutOfBuffers);
            },
        };

        if let Some(item) = self.iter.prev() {
            let ghost given = buffer;
            clone_into::<BorrowedItem>(
                borrowed::<BorrowedItem, LentItem<'_, I>>(&item),
                buffer.deref_mut(),
            );
            proof {
                Self::copy_is_made(item, given, buffer);
            }
            Ok(Some(buffer))
        } else {
            Ok(None)
        }
    }
}

impl<I, BorrowedItem> PooledIterator for ThreadsafePooledIter<I, BorrowedItem> where
    I: CursorLendingIterator,
    BorrowedItem: ToOwned,
    for <'lend>LentItem<'lend, I>: Borrow<BorrowedItem>,
 {
    type Item = ThreadsafePoolItem<BorrowedItem::Owned>;

    open spec fn on_entry(&self) -> bool {
        self.inner().peek() is Some
    }

    fn try_next(&mut self) -> (item: Result<Option<Self::Item>, OutOfBuffers>)
        ensures
            final(self).pool() == old(self).pool(),
            item is Ok ==> moved_next(&old(self).inner(), &final(self).inner()),
            item is Err ==> final(self).inner() == old(self).inner(),
            exists|answer: Result<ThreadsafePoolItem<BorrowedItem::Owned>, ResourcePoolEmpty>|
                {
                    &&& #[trigger] old(self).pool_answers(answer)
                    &&& item is Err == answer is Err
                    &&& item matches Ok(Some(filled)) ==> exists|
                        loan: &mut ThreadsafePoolItem<BorrowedItem::Owned>,
                        target: &mut BorrowedItem::Owned,
                        source: &BorrowedItem,
                    |
                        {
                            &&& answer == Ok::<_, ResourcePoolEmpty>(*loan)
                            &&& *final(loan) == filled
                            &&& #[trigger] Self::copied(
                                final(self).inner().peek().unwrap(),
                                loan,
                                target,
                                source,
                            )
                        }
                },
    {
        let buffer = try_get(&self.pool);
        let ghost answer = buffer;
        let item = self.try_next_with(buffer);
        proof {
            assert(old(self).pool_answers(answer));
        }
        item
    }

    /// The number of buffers of the pool, as the pool gives it.
    #[inline]
    fn buffer_pool_size(&self) -> (size: usize)
        ensures
            self.pool_sizes(size),
    {
        pool_size(&self.pool)
    }

    /// The number of buffers of the pool that are free, as the pool gives it.
    fn available_buffers(&self) -> (available: usize)
        ensures
            self.pool_counts(available),
    {
        available_resources(&self.pool)
    }
}

impl<I, BorrowedItem> CursorPooledIterator for ThreadsafePooledIter<I, BorrowedItem> where
    I: CursorLendingIterator,
    BorrowedItem: ToOwned,
    for <'lend>LentItem<'lend, I>: Borrow<BorrowedItem>,
 {
    #[inline]
    fn valid(&self) -> (valid: bool) {
        self.iter.valid()
    }

    fn try_current(&self) -> (item: Result<Option<Self::Item>, OutOfBuffers>)
        ensures
            exists|answer: Result<ThreadsafePoolItem<BorrowedItem::Owned>, ResourcePoolEmpty>|
                {
                    &&& #[trigger] self.pool_answers(answer)
                    &&& item is Err == answer is Err
                    &&& item matches Ok(Some(filled)) ==> exists|
                        loan: &mut ThreadsafePoolItem<BorrowedItem::Owned>,
                        target: &mut BorrowedItem::Owned,
                        source: &BorrowedItem,
                    |
                        {
                            &&& answer == Ok::<_, ResourcePoolEmpty>(*loan)
                            &&& *final(loan) == filled
                            &&& #[trigger] Self::copied(
                                self.inner().peek().unwrap(),
                                loan,
                                target,
                                source,
                            )
                        }
                },
    {
        let buffer = try_get(&self.pool);
        let ghost answer = buffer;
        let item = self.try_current_with(buffer);
        proof {
            assert(self.pool_answers(answer));
        }
        item
    }


    fn try_prev(&mut self) -> (item: Result<Option<Self::Item>, OutOfBuffers>)
        ensures
            final(self).pool() == old(self).pool(),
            item is Ok ==> moved_prev(&old(self).inner(), &final(self).inner()),
            item is Err ==> final(self).inner() == old(self).inner(),
            exists|answer: Result<ThreadsafePoolItem<BorrowedItem::Owned>, ResourcePoolEmpty>|
                {
                    &&& #[trigger] old(self).pool_answers(answer)
                    &&& item is Err == answer is Err
                    &&& item matches Ok(Some(filled)) ==> exists|
                        loan: &mut ThreadsafePoolItem<BorrowedItem::Owned>,
                        target: &mut BorrowedItem::Owned,
                        source: &BorrowedItem,
                    |
                        {
                            &&& answer == Ok::<_, ResourcePoolEmpty>(*loan)
                            &&& *final(loan) == filled
                            &&& #[trigger] Self::copied(
                                final(self).inner().peek().unwrap(),
                                loan,
                                target,
                                source,
                            )
                        }
                },
    {
        let buffer = try_get(&self.pool);
        let ghost answer = buffer;
        let item = self.try_prev_with(buffer);
        proof {
            assert(old(self).pool_answers(answer));
        }
        item
    }
}

impl<I, BorrowedItem, Key, Cmp> Seekable<Key, Cmp> for ThreadsafePooledIter<I, BorrowedItem> where
    I: CursorLendingIterator + Seekable<Key, Cmp>,
    BorrowedItem: ToOwned,
    Key: ?Sized,
    Cmp: Comparator<Key>,
    for <'lend>LentItem<'lend, I>: Borrow<BorrowedItem>,
 {
    open spec fn keys(&self) -> Seq<&Key> {
        self.inner().keys()
    }

    open spec fn place(&self) -> int {
        self.inner().place()
    }

    open spec fn comparator(&self) -> &Cmp {
        self.inner().comparator()
    }

    open spec fn sorted(&self) -> bool {
        self.inner().sorted()
    }

    open spec fn same_collection(&self, other: &Self) -> bool {
        self.inner().same_collection(&other.inner())
    }

    proof fn sorted_keys(&self) {
        self.inner().sorted_keys();
    }

    #[inline]
    fn reset(&mut self)
        ensures
            final(self).pool() == old(self).pool(),
    {
        self.iter.reset();
    }

    fn seek(&mut self, min_bound: &Key)
        ensures
            final(self).pool() == old(self).pool(),
    {
        self.iter.seek(min_bound);
    }

    fn seek_before(&mut self, strict_upper_bound: &Key)
        ensures
            final(self).pool() == old(self).pool(),
    {
        self.iter.seek_before(strict_upper_bound);
    }

    #[inline]
    fn seek_to_first(&mut self)
        ensures
            final(self).pool() == old(self).pool(),
    {
        self.iter.seek_to_first();
    }

    fn seek_to_last(&mut self)
        ensures
            final(self).pool() == old(self).pool(),
    {
        self.iter.seek_to_last();
    }
}

impl<OwnedItem> Deref for ThreadsafePoolItem<OwnedItem> {
    type Target = OwnedItem;

    /// `Deref::deref` of the pooled resource: the buffer.
    #[inline]
    #[verifier::external_body]
    fn deref(&self) -> &Self::Target {
        self.0.deref()
    }
}

impl<OwnedItem> DerefMut for ThreadsafePoolItem<OwnedItem> {
    /// `DerefMut::deref_mut` of the pooled resource: the buffer.
    #[inline]
    #[verifier::external_body]
    fn deref_mut(&mut self) -> &mut Self::Target {
        self.0.deref_mut()
    }
}

impl<OwnedItem> Borrow<OwnedItem> for ThreadsafePoolItem<OwnedItem> {
    /// The buffer, as `deref` gives it.
    #[inline]
    fn borrow(&self) -> (buffer: &OwnedItem)
        ensures
            call_ensures(<ThreadsafePoolItem<OwnedItem> as Deref>::deref, (self,), buffer),
    {
        self.deref()
    }
}

impl<OwnedItem> BorrowMut<OwnedItem> for ThreadsafePoolItem<OwnedItem> {
    /// The buffer, as `deref_mut` gives it: the loan of the buffer that `deref_mut` makes of
    /// a loan of the item, which is the item as it was, and as it is once the buffer is
    /// given back.
    #[inline]
    fn borrow_mut(&mut self) -> (buffer: &mut OwnedItem)
        ensures
            exists|item: &mut ThreadsafePoolItem<OwnedItem>|
                *item == *old(self) && *final(item) == *final(self) && #[trigger] call_ensures(
                    <ThreadsafePoolItem<OwnedItem> as DerefMut>::deref_mut,
                    (item,),
                    buffer,
                ),
    {
        self.deref_mut()
    }
}

impl<OwnedItem> AsRef<OwnedItem> for ThreadsafePoolItem<OwnedItem> {
    /// The buffer, as `deref` gives it.
    #[inline]
    fn as_ref(&self) -> (buffer: &OwnedItem)
        ensures
            call_ensures(<ThreadsafePoolItem<OwnedItem> as Deref>::deref, (self,), buffer),
    {
        self.deref()
    }
}

impl<OwnedItem> AsMut<OwnedItem> for ThreadsafePoolItem<OwnedItem> {
    /// The buffer, as `deref_mut` gives it: the loan of the buffer that `deref_mut` makes of
    /// a loan of the item, which is the item as it was, and as it is once the buffer is
    /// given back.
    #[inline]
    fn as_mut(&mut self) -> (buffer: &mut OwnedItem)
        ensures
            exists|item: &mut ThreadsafePoolItem<OwnedItem>|
                *item == *old(self) && *final(item) == *final(self) && #[trigger] call_ensures(
                    <ThreadsafePoolItem<OwnedItem> as DerefMut>::deref_mut,
                    (item,),
                    buffer,
                ),
    {
        self.deref_mut()
    }
}

} // verus!
