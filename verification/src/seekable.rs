use vstd::prelude::*;

use crate::comparator::{le, lt, Comparator};
use crate::lending_iterator_support::{LendItem, LentItem};

verus! {

/// `place` is where a seek to `bound` comes to rest among `keys`: on an entry whose key is the
/// smallest that is `bound` or greater, or at the phantom position `keys.len()` if there is no
/// such key.
pub open spec fn seek_lands<Key: ?Sized, C: Comparator<Key> + ?Sized>(
    c: &C,
    keys: Seq<&Key>,
    bound: &Key,
    place: int,
) -> bool {
    &&& 0 <= place <= keys.len()
    &&& place == keys.len() ==> forall|i: int| 0 <= i < keys.len() ==> lt(c, #[trigger] keys[i], bound)
    &&& place < keys.len() ==> le(c, bound, keys[place])
    &&& place < keys.len() ==> forall|i: int|
        0 <= i < keys.len() && le(c, bound, #[trigger] keys[i]) ==> le(c, keys[place], keys[i])
}

/// `place` is where a seek before `bound` comes to rest among `keys`: on an entry whose key is
/// the greatest that is strictly less than `bound`, or at the phantom position `keys.len()` if
/// there is no such key.
pub open spec fn seek_before_lands<Key: ?Sized, C: Comparator<Key> + ?Sized>(
    c: &C,
    keys: Seq<&Key>,
    bound: &Key,
    place: int,
) -> bool {
    &&& 0 <= place <= keys.len()
    &&& place == keys.len() ==> forall|i: int| 0 <= i < keys.len() ==> le(c, bound, #[trigger] keys[i])
    &&& place < keys.len() ==> lt(c, keys[place], bound)
    &&& place < keys.len() ==> forall|i: int|
        0 <= i < keys.len() && lt(c, #[trigger] keys[i], bound) ==> le(c, keys[i], keys[place])
}

/// No key of `keys` sorts strictly before a key that stands before it.
pub open spec fn in_order<Key: ?Sized, C: Comparator<Key> + ?Sized>(c: &C, keys: Seq<&Key>) -> bool {
    forall|i: int, j: int| 0 <= i <= j < keys.len() ==> le(c, #[trigger] keys[i], #[trigger] keys[j])
}

/// A trait adding seek functionality to one of the cursor iterator traits.
///
/// The keys of implementors must be sorted by a comparator of the indicated [`Comparator`]
/// type. An implementation that is `sorted` says of itself that they are: its keys are a
/// fixed sequence in the order of its comparator, and it seeks among them.
///
/// Implementors of `Seekable` and `CursorLendingIterator` should strongly consider implementing
/// [`ItemToKey`] as well.
pub trait Seekable<Key: ?Sized, Cmp: ?Sized + Comparator<Key>> {
    /// The keys of the entries, first to last.
    spec fn keys(&self) -> Seq<&Key>;

    /// The index in `keys` of the key under the cursor; at the phantom position, the number of
    /// keys.
    spec fn place(&self) -> int;

    /// The comparator that the keys are sorted by.
    spec fn comparator(&self) -> &Cmp;

    /// Whether this iterator keeps a fixed sequence of keys in the order of its comparator.
    spec fn sorted(&self) -> bool;

    /// Whether `self` and `other` are iterators over one and the same collection. What an
    /// implementation means by this is its own affair: the methods below say that a sorted
    /// iterator stays with its collection, and a type that is also a cursor can say what
    /// follows from that for its entries.
    spec fn same_collection(&self, other: &Self) -> bool;

    /// The keys of a sorted iterator are in order, and it stands among them or at the phantom
    /// position.
    proof fn sorted_keys(&self)
        requires
            self.sorted(),
        ensures
            0 <= self.place() <= self.keys().len(),
            in_order(self.comparator(), self.keys()),
    ;

    /// Reset the iterator to its initial position, before the first entry and after the last
    /// entry (if there are any entries in the collection).
    ///
    /// The iterator becomes `!valid()`.
    fn reset(&mut self)
        ensures
            old(self).sorted() ==> final(self).sorted(),
            old(self).sorted() ==> final(self).keys() == old(self).keys(),
            old(self).sorted() ==> final(self).comparator() == old(self).comparator(),
            old(self).sorted() ==> final(self).same_collection(old(self)),
            old(self).sorted() ==> final(self).place() == old(self).keys().len(),
    ;

    /// Move the iterator to the smallest key which is greater or equal than the provided
    /// `min_bound`.
    ///
    /// If there is no such key, the iterator becomes `!valid()`.
    fn seek(&mut self, min_bound: &Key)
        ensures
            old(self).sorted() ==> final(self).sorted(),
            old(self).sorted() ==> final(self).keys() == old(self).keys(),
            old(self).sorted() ==> final(self).comparator() == old(self).comparator(),
            old(self).sorted() ==> final(self).same_collection(old(self)),
            old(self).sorted() ==> seek_lands(
                old(self).comparator(),
                old(self).keys(),
                min_bound,
                final(self).place(),
            ),
    ;

    /// Move the iterator to the greatest key which is strictly less than the provided
    /// `strict_upper_bound`.
    ///
    /// If there is no such key, the iterator becomes `!valid()`.
    fn seek_before(&mut self, strict_upper_bound: &Key)
        ensures
            old(self).sorted() ==> final(self).sorted(),
            old(self).sorted() ==> final(self).keys() == old(self).keys(),
            old(self).sorted() ==> final(self).comparator() == old(self).comparator(),
            old(self).sorted() ==> final(self).same_collection(old(self)),
            old(self).sorted() ==> seek_before_lands(
                old(self).comparator(),
                old(self).keys(),
                strict_upper_bound,
                final(self).place(),
            ),
    ;

    /// Move the iterator to the smallest key in the collection.
    ///
    /// If the collection is empty, the iterator is `!valid()`.
    fn seek_to_first(&mut self)
        ensures
            old(self).sorted() ==> final(self).sorted(),
            old(self).sorted() ==> final(self).keys() == old(self).keys(),
            old(self).sorted() ==> final(self).comparator() == old(self).comparator(),
            old(self).sorted() ==> final(self).same_collection(old(self)),
            old(self).sorted() ==> final(self).place() == 0,
    ;

    /// Move the iterator to the greatest key in the collection.
    ///
    /// If the collection is empty, the iterator is `!valid()`.
    fn seek_to_last(&mut self)
        ensures
            old(self).sorted() ==> final(self).sorted(),
            old(self).sorted() ==> final(self).keys() == old(self).keys(),
            old(self).sorted() ==> final(self).comparator() == old(self).comparator(),
            old(self).sorted() ==> final(self).same_collection(old(self)),
            old(self).sorted() ==> final(self).place() == if old(self).keys().len() == 0 {
                0
            } else {
                old(self).keys().len() - 1
            },
    ;
}

/// Convert one of the items of an iterator into a `Key` reference, intended for use with
/// [`Seekable`].
///
/// This conversion is expected to be cheap.
pub trait ItemToKey<Key: ?Sized>: for <'lend>LendItem<'lend> {
    /// The key of an item.
    spec fn key_of(item: LentItem<'_, Self>) -> &'_ Key;

    /// Convert one of the items of an iterator into a `Key` reference, intended for use with
    /// [`Seekable`].
    fn item_to_key(item: LentItem<'_, Self>) -> (key: &'_ Key)
        ensures
            key == Self::key_of(item),
    ;
}

/// `after` has the keys, the comparator and the collection of `before`, and is sorted if
/// `before` is.
pub open spec fn same_keys<Key: ?Sized, Cmp: ?Sized + Comparator<Key>, I: Seekable<Key, Cmp>>(
    before: &I,
    after: &I,
) -> bool {
    before.sorted() ==> {
        &&& after.sorted()
        &&& after.keys() == before.keys()
        &&& after.comparator() == before.comparator()
        &&& after.same_collection(before)
    }
}

/// `after` is what `reset` makes of `before`.
pub open spec fn was_reset<Key: ?Sized, Cmp: ?Sized + Comparator<Key>, I: Seekable<Key, Cmp>>(
    before: &I,
    after: &I,
) -> bool {
    &&& same_keys(before, after)
    &&& before.sorted() ==> after.place() == before.keys().len()
}

/// `after` is what `seek(bound)` makes of `before`.
pub open spec fn sought<Key: ?Sized, Cmp: ?Sized + Comparator<Key>, I: Seekable<Key, Cmp>>(
    before: &I,
    after: &I,
    bound: &Key,
) -> bool {
    &&& same_keys(before, after)
    &&& before.sorted() ==> seek_lands(before.comparator(), before.keys(), bound, after.place())
}

/// `after` is what `seek_before(bound)` makes of `before`.
pub open spec fn sought_before<Key: ?Sized, Cmp: ?Sized + Comparator<Key>, I: Seekable<Key, Cmp>>(
    before: &I,
    after: &I,
    bound: &Key,
) -> bool {
    &&& same_keys(before, after)
    &&& before.sorted() ==> seek_before_lands(
        before.comparator(),
        before.keys(),
        bound,
        after.place(),
    )
}

/// `after` is what `seek_to_first` makes of `before`.
pub open spec fn sought_first<Key: ?Sized, Cmp: ?Sized + Comparator<Key>, I: Seekable<Key, Cmp>>(
    before: &I,
    after: &I,
) -> bool {
    &&& same_keys(before, after)
    &&& before.sorted() ==> after.place() == 0
}

/// `after` is what `seek_to_last` makes of `before`.
pub open spec fn sought_last<Key: ?Sized, Cmp: ?Sized + Comparator<Key>, I: Seekable<Key, Cmp>>(
    before: &I,
    after: &I,
) -> bool {
    &&& same_keys(before, after)
    &&& before.sorted() ==> after.place() == if before.keys().len() == 0 {
        0
    } else {
        before.keys().len() - 1
    }
}

} // verus!
