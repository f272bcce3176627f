use std::marker::PhantomData;
use vstd::prelude::*;

use crate::comparator::{follows, precedes, ties, total_order, Comparator};
use crate::cursor::{moved_next, moved_prev, CursorLendingIterator};
use crate::lending_iterator_support::{LendItem, LentItem};
use crate::merging_laws::{largest_grows, smallest_grows};
use crate::merging_rank::{
    merged_down, merged_in_order, merged_peek, merged_seek, merged_seek_before, merged_up,
};
use crate::merging_spec::{
    aligned, entries_kept, greatest_before, head, keys_kept, largest_among, largest_at, lawful,
    least_from, merged_entries, merged_index, merged_keys, passed, rows_of, smallest_among,
    smallest_at, sought_past, stands_among, stands_at, steps_down, steps_up, unique_keys,
};
use crate::seekable::{
    sought, sought_before, sought_first, sought_last, was_reset, ItemToKey, Seekable,
};
use crate::seekable_iterators::SeekableLendingIterator;

verus! {

#[derive(Debug, Clone, Copy)]
enum Direction {
    Forwards,
    Backwards,
}

/// A [`MergingIter`] takes several [`SeekableLendingIterator`]s as input, and iterates over the
/// sorted union of their entries.
///
/// The given iterators may have overlap in their keys, and can be provided in any order.
///
/// Conceptually, each [`SeekableLendingIterator`] is a circular iterator over the entries of some
/// sorted collection; this also holds of [`MergingIter`]. The collection corresponding to a
/// [`MergingIter`] is the sorted union (without de-duplication) of its given iterators'
/// collections.
///
/// # Warning for duplicate keys
/// If a key is present in multiple iterators, then repeatedly calling `next` or repeatedly
/// calling `prev` will yield all items with that key. However, switching between `next` and
/// `prev` will return at least one but not necessarily all of the items with the key returned
/// by [`MergingIter::current`] at the time of the switch in direction. No key that compares as
/// different is passed over.
///
/// The method `next` switches the direction to forwards, `prev` to backwards. `new`, `reset`,
/// `seek` and `seek_to_first` set it to forwards, `seek_before` and `seek_to_last` to backwards.
///
/// # What is proved of a merge
/// Each method says what it does to the components, whatever they and the comparator are.
/// Of a merge that is [`lawful`](MergingIter::lawful) and [`aligned`](MergingIter::aligned)
/// each method says moreover where it leads in the order of the keys, and that it passes over
/// no key. A merge that is [`exact`](MergingIter::exact), as one without equal keys is, is a
/// cursor in the strict sense over the sorted union of its components.
#[derive(Debug)]
pub struct MergingIter<Key, Cmp, Iter> where
    Key: ?Sized,
    Cmp: Comparator<Key>,
    Iter: SeekableLendingIterator<Key, Cmp> + ItemToKey<Key>,
 {
    iterators: Vec<Iter>,
    order: Cmp,
    /// Ensures that the implementation of the iterator and comparator aren't switched
    /// mid-iteration.
    _key: PhantomData<Key>,
    /// If `Some`, the index of the current iterator.
    current_iter: Option<usize>,
    /// If `current_iter` is `Some` and `direction` is `Forwards`, then the non-`current_iter`
    /// iterators are non-strictly in front of `current_iter`. If `Backwards`, the
    /// non-`current_iter` iterators are non-strictly behind `current_iter`.
    direction: Direction,
}

/// Move every iterator of `parts` by one `next`.
fn next_each<I: CursorLendingIterator>(parts: &mut [I])
    ensures
        final(parts)@.len() == old(parts)@.len(),
        forall|j: int|
            0 <= j < old(parts)@.len() ==> moved_next(&old(parts)@[j], &#[trigger] final(parts)@[j]),
{
    let n: usize = parts.len();
    let mut j: usize = 0;
    while j < n
        invariant
            j <= n,
            n == parts@.len(),
            n == old(parts)@.len(),
            forall|i: int| 0 <= i < j ==> moved_next(&old(parts)@[i], &#[trigger] parts@[i]),
            forall|i: int| j <= i < n ==> #[trigger] parts@[i] == old(parts)@[i],
        decreases n - j,
    {
        parts[j].next();
        j += 1;
    }
}

/// Move every iterator of `parts` by one `prev`.
fn prev_each<I: CursorLendingIterator>(parts: &mut [I])
    ensures
        final(parts)@.len() == old(parts)@.len(),
        forall|j: int|
            0 <= j < old(parts)@.len() ==> moved_prev(&old(parts)@[j], &#[trigger] final(parts)@[j]),
{
    let n: usize = parts.len();
    let mut j: usize = 0;
    while j < n
        invariant
            j <= n,
            n == parts@.len(),
            n == old(parts)@.len(),
            forall|i: int| 0 <= i < j ==> moved_prev(&old(parts)@[i], &#[trigger] parts@[i]),
            forall|i: int| j <= i < n ==> #[trigger] parts@[i] == old(parts)@[i],
        decreases n - j,
    {
        parts[j].prev();
        j += 1;
    }
}

/// Reset every iterator of `parts`.
fn reset_each<Key, Cmp, I>(parts: &mut [I]) where
    Key: ?Sized,
    Cmp: ?Sized + Comparator<Key>,
    I: Seekable<Key, Cmp>,

    ensures
        final(parts)@.len() == old(parts)@.len(),
        forall|j: int|
            0 <= j < old(parts)@.len() ==> was_reset(&old(parts)@[j], &#[trigger] final(parts)@[j]),
{
    let n: usize = parts.len();
    let mut j: usize = 0;
    while j < n
        invariant
            j <= n,
            n == parts@.len(),
            n == old(parts)@.len(),
            forall|i: int| 0 <= i < j ==> was_reset(&old(parts)@[i], &#[trigger] parts@[i]),
            forall|i: int| j <= i < n ==> #[trigger] parts@[i] == old(parts)@[i],
        decreases n - j,
    {
        parts[j].reset();
        j += 1;
    }
}

/// Seek every iterator of `parts` to `bound`.
fn seek_each<Key, Cmp, I>(parts: &mut [I], bound: &Key) where
    Key: ?Sized,
    Cmp: ?Sized + Comparator<Key>,
    I: Seekable<Key, Cmp>,

    ensures
        final(parts)@.len() == old(parts)@.len(),
        forall|j: int|
            0 <= j < old(parts)@.len() ==> sought(
                &old(parts)@[j],
                &#[trigger] final(parts)@[j],
                bound,
            ),
{
    let n: usize = parts.len();
    let mut j: usize = 0;
    while j < n
        invariant
            j <= n,
            n == parts@.len(),
            n == old(parts)@.len(),
            forall|i: int| 0 <= i < j ==> sought(&old(parts)@[i], &#[trigger] parts@[i], bound),
            forall|i: int| j <= i < n ==> #[trigger] parts@[i] == old(parts)@[i],
        decreases n - j,
    {
        parts[j].seek(bound);
        j += 1;
    }
}

/// Seek every iterator of `parts` before `bound`.
fn seek_before_each<Key, Cmp, I>(parts: &mut [I], bound: &Key) where
    Key: ?Sized,
    Cmp: ?Sized + Comparator<Key>,
    I: Seekable<Key, Cmp>,

    ensures
        final(parts)@.len() == old(parts)@.len(),
        forall|j: int|
            0 <= j < old(parts)@.len() ==> sought_before(
                &old(parts)@[j],
                &#[trigger] final(parts)@[j],
                bound,
            ),
{
    let n: usize = parts.len();
    let mut j: usize = 0;
    while j < n
        invariant
            j <= n,
            n == parts@.len(),
            n == old(parts)@.len(),
            forall|i: int|
                0 <= i < j ==> sought_before(&old(parts)@[i], &#[trigger] parts@[i], bound),
            forall|i: int| j <= i < n ==> #[trigger] parts@[i] == old(parts)@[i],
        decreases n - j,
    {
        parts[j].seek_before(bound);
        j += 1;
    }
}

/// Seek every iterator of `parts` to its first entry.
fn seek_to_first_each<Key, Cmp, I>(parts: &mut [I]) where
    Key: ?Sized,
    Cmp: ?Sized + Comparator<Key>,
    I: Seekable<Key, Cmp>,

    ensures
        final(parts)@.len() == old(parts)@.len(),
        forall|j: int|
            0 <= j < old(parts)@.len() ==> sought_first(
                &old(parts)@[j],
                &#[trigger] final(parts)@[j],
            ),
{
    let n: usize = parts.len();
    let mut j: usize = 0;
    while j < n
        invariant
            j <= n,
            n == parts@.len(),
            n == old(parts)@.len(),
            forall|i: int| 0 <= i < j ==> sought_first(&old(parts)@[i], &#[trigger] parts@[i]),
            forall|i: int| j <= i < n ==> #[trigger] parts@[i] == old(parts)@[i],
        decreases n - j,
    {
        parts[j].seek_to_first();
        j += 1;
    }
}

/// Seek every iterator of `parts` to its last entry.
fn seek_to_last_each<Key, Cmp, I>(parts: &mut [I]) where
    Key: ?Sized,
    Cmp: ?Sized + Comparator<Key>,
    I: Seekable<Key, Cmp>,

    ensures
        final(parts)@.len() == old(parts)@.len(),
        forall|j: int|
            0 <= j < old(parts)@.len() ==> sought_last(
                &old(parts)@[j],
                &#[trigger] final(parts)@[j],
            ),
{
    let n: usize = parts.len();
    let mut j: usize = 0;
    while j < n
        invariant
            j <= n,
            n == parts@.len(),
            n == old(parts)@.len(),
            forall|i: int| 0 <= i < j ==> sought_last(&old(parts)@[i], &#[trigger] parts@[i]),
            forall|i: int| j <= i < n ==> #[trigger] parts@[i] == old(parts)@[i],
        decreases n - j,
    {
        parts[j].seek_to_last();
        j += 1;
    }
}

/// Move every iterator of `parts` strictly past `bound`: seek it to `bound`, and move it once
/// more where it came to rest on a key that compares as equal to `bound`.
fn seek_past_each<Key, Cmp, I>(parts: &mut [I], order: &Cmp, bound: &Key) where
    Key: ?Sized,
    Cmp: Comparator<Key>,
    I: SeekableLendingIterator<Key, Cmp> + ItemToKey<Key>,

    ensures
        final(parts)@.len() == old(parts)@.len(),
        forall|j: int|
            0 <= j < old(parts)@.len() ==> sought_past(
                order,
                &old(parts)@[j],
                &#[trigger] final(parts)@[j],
                bound,
            ),
{
    let n: usize = parts.len();
    let mut j: usize = 0;
    while j < n
        invariant
            j <= n,
            n == parts@.len(),
            n == old(parts)@.len(),
            forall|i: int|
                0 <= i < j ==> sought_past(order, &old(parts)@[i], &#[trigger] parts@[i], bound),
            forall|i: int| j <= i < n ==> #[trigger] parts@[i] == old(parts)@[i],
        decreases n - j,
    {
        let iter = &mut parts[j];
        iter.seek(bound);
        let ghost mid = *iter;
        // `seek` provides a `geq` order, we want a strict greater-than order.
        let skip = match iter.current() {
            Some(item) => ties(order, bound, I::item_to_key(item)),
            None => false,
        };
        if skip {
            iter.next();
        }
        proof {
            assert(sought(&old(parts)@[j as int], &mid, bound));
            assert(passed(&mid, &*iter, skip));
        }
        j += 1;
    }
}

impl<Key, Cmp, Iter> MergingIter<Key, Cmp, Iter> where
    Key: ?Sized,
    Cmp: Comparator<Key>,
    Iter: SeekableLendingIterator<Key, Cmp> + ItemToKey<Key>,
 {
    #[verifier::type_invariant]
    spec fn inv(&self) -> bool {
        &&& self.iterators@.len() < usize::MAX
        &&& self.current_iter matches Some(c) ==> c < self.iterators@.len()
            && self.iterators@[c as int].peek() is Some
    }

    /// The component iterators, in the order in which they were given.
    pub closed spec fn components(&self) -> Seq<Iter> {
        self.iterators@
    }

    /// The comparator of the merge.
    pub closed spec fn order(&self) -> &Cmp {
        &self.order
    }

    /// The index of the component whose entry the merge stands on, or nothing where the merge
    /// stands on no entry.
    pub closed spec fn current_index(&self) -> Option<int> {
        match self.current_iter {
            Some(c) => Some(c as int),
            None => None,
        }
    }

    /// Whether the direction of the merge is forwards.
    pub closed spec fn forwards(&self) -> bool {
        self.direction is Forwards
    }

    /// The components and the comparator are fit for a merge: the comparator is a total
    /// order, the components are plain cursors of a kindred type, and the comparator of each
    /// gives the answers that the comparator of the merge gives.
    pub open spec fn lawful(&self) -> bool {
        lawful(self.order(), self.components())
    }

    /// The state that a merge keeps between calls: where it stands on no entry, no component
    /// does; where it stands on one, it is the smallest that a component stands on and the
    /// components are ahead of it, if the direction is forwards, and the largest with the
    /// components behind it, if the direction is backwards.
    pub open spec fn aligned(&self) -> bool {
        aligned(self.order(), self.components(), self.current_index(), self.forwards())
    }

    /// The merge is a cursor in the strict sense: it is lawful and aligned, and no two
    /// entries of its components have keys that compare as equal.
    pub open spec fn exact(&self) -> bool {
        &&& self.lawful()
        &&& self.aligned()
        &&& unique_keys(self.order(), self.components())
    }

    /// The entries of all components, in the order of their keys.
    pub open spec fn sorted_entries(&self) -> Seq<LentItem<'_, Iter>> {
        merged_entries(self.order(), self.components())
    }

    /// The keys of the entries of all components, in order.
    pub open spec fn sorted_keys_of_all(&self) -> Seq<&Key> {
        merged_keys(self.order(), self.components())
    }

    /// The number of entries with keys that sort strictly before the key that the merge
    /// stands on; the number of all entries, where it stands on none.
    pub open spec fn rank(&self) -> int {
        merged_index(self.order(), self.components(), self.current_index())
    }

    /// The merge has the entries and the keys of `before`, and its comparator.
    pub open spec fn same_entries(&self, before: &Self) -> bool {
        &&& self.sorted_entries() == before.sorted_entries()
        &&& self.sorted_keys_of_all() == before.sorted_keys_of_all()
        &&& self.order() == before.order()
        &&& rows_of(self.components()) == rows_of(before.components())
    }

    /// A lawful merge that `before` was is lawful still, with the keys and the entries that
    /// it had, and aligned.
    pub open spec fn settled_from(&self, before: &Self) -> bool {
        &&& self.lawful()
        &&& self.aligned()
        &&& self.order() == before.order()
        &&& keys_kept(before.components(), self.components())
        &&& entries_kept(before.components(), self.components())
    }

    /// The merge has the comparator and as many components as `before`.
    pub open spec fn same_frame(&self, before: &Self) -> bool {
        &&& self.components().len() == before.components().len()
        &&& self.order() == before.order()
    }

    /// Each component is what `before` had, but the component at `at`.
    pub open spec fn others_kept(&self, before: &Self, at: int) -> bool {
        forall|j: int|
            0 <= j < before.components().len() && j != at ==> #[trigger] self.components()[j]
                == before.components()[j]
    }

    /// `self` is what `next` makes of `before`.
    pub open spec fn is_next_of(&self, before: &Self) -> bool {
        &&& self.same_frame(before)
        &&& self.at_smallest()
        &&& match before.current_index() {
            None => forall|j: int|
                0 <= j < before.components().len() ==> moved_next(
                    &before.components()[j],
                    &#[trigger] self.components()[j],
                ),
            Some(c) => exists|turned: Self|
                {
                    &&& #[trigger] turned.is_turn_of(before, true)
                    &&& self.others_kept(&turned, c)
                    &&& moved_next(&turned.components()[c], &self.components()[c])
                },
        }
    }

    /// `self` is what `prev` makes of `before`.
    pub open spec fn is_prev_of(&self, before: &Self) -> bool {
        &&& self.same_frame(before)
        &&& self.at_largest()
        &&& match before.current_index() {
            None => forall|j: int|
                0 <= j < before.components().len() ==> moved_prev(
                    &before.components()[j],
                    &#[trigger] self.components()[j],
                ),
            Some(c) => exists|turned: Self|
                {
                    &&& #[trigger] turned.is_turn_of(before, false)
                    &&& self.others_kept(&turned, c)
                    &&& moved_prev(&turned.components()[c], &self.components()[c])
                },
        }
    }

    /// `self` is `before` turned to forwards on the component at `at`: its direction is
    /// forwards, it stands on that component, which is as it was, and every other component
    /// was moved strictly past the key that this one stands on.
    pub open spec fn is_forward_turn_of(&self, before: &Self, at: int) -> bool {
        &&& self.same_frame(before)
        &&& self.forwards()
        &&& self.current_index() == Some(at)
        &&& 0 <= at < before.components().len()
        &&& self.components()[at] == before.components()[at]
        &&& forall|j: int|
            0 <= j < before.components().len() && j != at ==> sought_past(
                before.order(),
                &before.components()[j],
                &#[trigger] self.components()[j],
                head(&before.components()[at]),
            )
    }

    /// `self` is `before` turned to backwards on the component at `at`: its direction is
    /// backwards, it stands on that component, which is as it was, and every other component
    /// was sought before the key that this one stands on.
    pub open spec fn is_backward_turn_of(&self, before: &Self, at: int) -> bool {
        &&& self.same_frame(before)
        &&& !self.forwards()
        &&& self.current_index() == Some(at)
        &&& 0 <= at < before.components().len()
        &&& self.components()[at] == before.components()[at]
        &&& forall|j: int|
            0 <= j < before.components().len() && j != at ==> sought_before(
                &before.components()[j],
                &#[trigger] self.components()[j],
                head(&before.components()[at]),
            )
    }

    /// `self` is `before` as a step in the direction `forwards` finds it once it has turned
    /// where it must: where `before` stands on a component and has the other direction, it
    /// has been turned on that component; else it is as it was.
    pub open spec fn is_turn_of(&self, before: &Self, forwards: bool) -> bool {
        match before.current_index() {
            Some(c) if before.forwards() != forwards => if forwards {
                self.is_forward_turn_of(before, c)
            } else {
                self.is_backward_turn_of(before, c)
            },
            _ => {
                &&& self.same_frame(before)
                &&& self.forwards() == before.forwards()
                &&& self.current_index() == before.current_index()
                &&& self.components() == before.components()
            },
        }
    }

    /// `self` is what `reset` makes of `before`.
    pub open spec fn is_reset_of(&self, before: &Self) -> bool {
        &&& self.same_frame(before)
        &&& self.forwards()
        &&& self.current_index() is None
        &&& forall|j: int|
            0 <= j < before.components().len() ==> was_reset(
                &before.components()[j],
                &#[trigger] self.components()[j],
            )
    }

    /// `self` stands on the smallest key that a component stands on, with its direction
    /// forwards.
    pub open spec fn at_smallest(&self) -> bool {
        &&& self.forwards()
        &&& stands_at(self.components(), self.current_index())
        &&& total_order(self.order()) ==> smallest_at(
            self.order(),
            self.components(),
            self.current_index(),
        )
    }

    /// `self` stands on the largest key that a component stands on, with its direction
    /// backwards.
    pub open spec fn at_largest(&self) -> bool {
        &&& !self.forwards()
        &&& stands_at(self.components(), self.current_index())
        &&& total_order(self.order()) ==> largest_at(
            self.order(),
            self.components(),
            self.current_index(),
        )
    }

    /// `self` is what `seek(bound)` makes of `before`.
    pub open spec fn is_seek_of(&self, before: &Self, bound: &Key) -> bool {
        &&& self.same_frame(before)
        &&& self.at_smallest()
        &&& forall|j: int|
            0 <= j < before.components().len() ==> sought(
                &before.components()[j],
                &#[trigger] self.components()[j],
                bound,
            )
    }

    /// `self` is what `seek_before(bound)` makes of `before`.
    pub open spec fn is_seek_before_of(&self, before: &Self, bound: &Key) -> bool {
        &&& self.same_frame(before)
        &&& self.at_largest()
        &&& forall|j: int|
            0 <= j < before.components().len() ==> sought_before(
                &before.components()[j],
                &#[trigger] self.components()[j],
                bound,
            )
    }

    /// `self` is what `seek_to_first` makes of `before`.
    pub open spec fn is_seek_to_first_of(&self, before: &Self) -> bool {
        &&& self.same_frame(before)
        &&& self.at_smallest()
        &&& forall|j: int|
            0 <= j < before.components().len() ==> sought_first(
                &before.components()[j],
                &#[trigger] self.components()[j],
            )
    }

    /// `self` is what `seek_to_last` makes of `before`.
    pub open spec fn is_seek_to_last_of(&self, before: &Self) -> bool {
        &&& self.same_frame(before)
        &&& self.at_largest()
        &&& forall|j: int|
            0 <= j < before.components().len() ==> sought_last(
                &before.components()[j],
                &#[trigger] self.components()[j],
            )
    }

    /// Create a new [`MergingIter`]. See the type-level documentation for details on behavior.
    ///
    /// # Comparator requirements
    /// The [`Comparator`]s used by each of the provided iterators must all behave identically
    /// to each other and to the provided `comparator` value.
    ///
    /// The length of `iterators` must be less than `usize::MAX`. Any other number of iterators
    /// can, theoretically, be merged.
    #[inline]
    #[must_use]
    pub fn new(iterators: Vec<Iter>, comparator: Cmp) -> (merged: Self)
        requires
            iterators.len() < usize::MAX,
        ensures
            merged.components() == iterators@,
            *merged.order() == comparator,
            merged.current_index() is None,
            merged.forwards(),
    {
        Self {
            iterators,
            order: comparator,
            _key: PhantomData,
            current_iter: None,
            direction: Direction::Forwards,
        }
    }

    /// The component that the merge stands on, if it stands on any.
    #[must_use]
    pub fn get_current_iter_ref(&self) -> (current: Option<&Iter>)
        ensures
            match self.current_index() {
                Some(c) => 0 <= c < self.components().len() && current == Some(
                    &self.components()[c],
                ) && self.components()[c].peek() is Some,
                None => current is None,
            },
    {
        proof {
            use_type_invariant(self);
        }
        match self.current_iter {
            Some(current_idx) => Some(&self.iterators[current_idx]),
            None => None,
        }
    }

    /// Take the component iterators out of the merge, which then stands on no entry and has
    /// no components until they are put back.
    fn lift(&mut self) -> (iterators: Vec<Iter>)
        ensures
            iterators@ == old(self).components(),
            iterators@.len() < usize::MAX,
            old(self).current_index() matches Some(c) ==> 0 <= c < iterators@.len()
                && iterators@[c].peek() is Some,
            final(self).components().len() == 0,
            final(self).current_index() is None,
            final(self).order() == old(self).order(),
            final(self).forwards() == old(self).forwards(),
    {
        proof {
            use_type_invariant(&*self);
        }
        self.current_iter = None;
        let mut iterators: Vec<Iter> = Vec::new();
        std::mem::swap(&mut self.iterators, &mut iterators);
        iterators
    }

    /// Put back what `lift` took out.
    fn put(&mut self, iterators: Vec<Iter>)
        requires
            iterators@.len() < usize::MAX,
            old(self).current_index() is None,
        ensures
            final(self).components() == iterators@,
            final(self).current_index() is None,
            final(self).order() == old(self).order(),
            final(self).forwards() == old(self).forwards(),
    {
        self.iterators = iterators;
    }

    /// Set `self.current_iter` to the iterator with the smallest `current` key, among the
    /// iterators in `self.iterators` which are valid. Among several with that key it is the
    /// first.
    pub fn find_smallest_iter(&mut self)
        ensures
            final(self).components() == old(self).components(),
            final(self).order() == old(self).order(),
            final(self).forwards() == old(self).forwards(),
            stands_at(final(self).components(), final(self).current_index()),
            total_order(old(self).order()) ==> smallest_at(
                final(self).order(),
                final(self).components(),
                final(self).current_index(),
            ),
    {
        proof {
            use_type_invariant(&*self);
        }
        let n: usize = self.iterators.len();
        let mut smallest: Option<(usize, &Key)> = None;
        let mut idx: usize = 0;
        while idx < n
            invariant
                n == self.iterators@.len(),
                idx <= n,
                smallest matches Some((b, key)) ==> b < idx && self.iterators@[b as int].peek()
                    is Some && key == head(&self.iterators@[b as int]),
                total_order(&self.order) ==> smallest_among(
                    &self.order,
                    self.iterators@,
                    0,
                    idx as int,
                    match smallest {
                        Some((b, _)) => Some(b as int),
                        None => None,
                    },
                ),
                stands_among(
                    self.iterators@,
                    0,
                    idx as int,
                    match smallest {
                        Some((b, _)) => Some(b as int),
                        None => None,
                    },
                ),
            decreases n - idx,
        {
            let ghost found = match smallest {
                Some((b, _)) => Some(b as int),
                None => None,
            };
            proof {
                if total_order(&self.order) {
                    smallest_grows(&self.order, self.iterators@, idx as int, found);
                }
            }
            let iter = &self.iterators[idx];
            if let Some(curr_item) = iter.current() {
                let curr_key = Iter::item_to_key(curr_item);
                if let Some((_, smallest_key)) = smallest {
                    if precedes(&self.order, curr_key, smallest_key) {
                        // `curr_key` is smaller than the previous `smallest`'s key
                        smallest = Some((idx, curr_key));
                    }
                } else {
                    // de-facto `smallest`, nothing was previously found
                    smallest = Some((idx, curr_key));
                }
            }
            idx += 1;
        }
        self.current_iter = match smallest {
            Some((b, _)) => Some(b),
            None => None,
        };
    }

    /// Set `self.current_iter` to the iterator with the largest `current` key, among the
    /// iterators in `self.iterators` which are valid. Among several with that key it is the
    /// last.
    pub fn find_largest_iter(&mut self)
        ensures
            final(self).components() == old(self).components(),
            final(self).order() == old(self).order(),
            final(self).forwards() == old(self).forwards(),
            stands_at(final(self).components(), final(self).current_index()),
            total_order(old(self).order()) ==> largest_at(
                final(self).order(),
                final(self).components(),
                final(self).current_index(),
            ),
    {
        proof {
            use_type_invariant(&*self);
        }
        let n: usize = self.iterators.len();
        let mut largest: Option<(usize, &Key)> = None;
        let mut idx: usize = n;
        while idx > 0
            invariant
                n == self.iterators@.len(),
                idx <= n,
                largest matches Some((b, key)) ==> idx <= b < n && self.iterators@[b as int].peek()
                    is Some && key == head(&self.iterators@[b as int]),
                total_order(&self.order) ==> largest_among(
                    &self.order,
                    self.iterators@,
                    idx as int,
                    n as int,
                    match largest {
                        Some((b, _)) => Some(b as int),
                        None => None,
                    },
                ),
                stands_among(
                    self.iterators@,
                    idx as int,
                    n as int,
                    match largest {
                        Some((b, _)) => Some(b as int),
                        None => None,
                    },
                ),
            decreases idx,
        {
            idx -= 1;
            let ghost found = match largest {
                Some((b, _)) => Some(b as int),
                None => None,
            };
            proof {
                if total_order(&self.order) {
                    largest_grows(&self.order, self.iterators@, idx as int, found);
                }
            }
            let iter = &self.iterators[idx];
            if let Some(curr_item) = iter.current() {
                let curr_key = Iter::item_to_key(curr_item);
                if let Some((_, largest_key)) = largest {
                    if follows(&self.order, curr_key, largest_key) {
                        // `curr_key` is larger than the previous `largest`'s key
                        largest = Some((idx, curr_key));
                    }
                } else {
                    // de-facto `largest`, nothing was previously found
                    largest = Some((idx, curr_key));
                }
            }
        }
        self.current_iter = match largest {
            Some((b, _)) => Some(b),
            None => None,
        };
    }

    /// For use in `self.next()`, where the direction was backwards.
    ///
    /// Move all iterators but the one at `current_idx`, which must stand on an entry, one
    /// entry strictly in front of it, whatever the direction was. The merge then stands on
    /// that iterator, as it does already where `next` calls this.
    pub fn switch_to_forwards(&mut self, current_idx: usize)
        requires
            current_idx < old(self).components().len(),
            old(self).components()[current_idx as int].peek() is Some,
        ensures
            final(self).is_forward_turn_of(old(self), current_idx as int),
    {
        let ghost before = *self;
        let mut iterators = self.lift();
        let (earlier, current_and_later) = iterators.as_mut_slice().split_at_mut(current_idx);
        let (current, later) = current_and_later.split_at_mut(1);
        let current_key = Iter::item_to_key(current[0].current().unwrap());
        seek_past_each(earlier, &self.order, current_key);
        seek_past_each(later, &self.order, current_key);
        proof {
            let c = current_idx as int;
            let parts = before.components();
            assert(iterators@.len() == parts.len());
            assert(iterators@[c] == parts[c]);
            assert forall|j: int| 0 <= j < parts.len() && j != c implies sought_past(
                before.order(),
                &parts[j],
                &#[trigger] iterators@[j],
                head(&parts[c]),
            ) by {
                if j < c {
                    assert(iterators@[j] == earlier@[j]);
                } else {
                    assert(iterators@[j] == later@[j - c - 1]);
                }
            }
        }
        self.put(iterators);
        self.direction = Direction::Forwards;
        self.current_iter = Some(current_idx);
    }

    /// For use in `self.prev()`, where the direction was forwards.
    ///
    /// Move all iterators but the one at `current_idx`, which must stand on an entry, one
    /// entry strictly behind it, whatever the direction was. The merge then stands on that
    /// iterator, as it does already where `prev` calls this.
    pub fn switch_to_backwards(&mut self, current_idx: usize)
        requires
            current_idx < old(self).components().len(),
            old(self).components()[current_idx as int].peek() is Some,
        ensures
            final(self).is_backward_turn_of(old(self), current_idx as int),
    {
        let ghost before = *self;
        let mut iterators = self.lift();
        let (earlier, current_and_later) = iterators.as_mut_slice().split_at_mut(current_idx);
        let (current, later) = current_and_later.split_at_mut(1);
        let current_key = Iter::item_to_key(current[0].current().unwrap());
        seek_before_each::<Key, Cmp, Iter>(earlier, current_key);
        seek_before_each::<Key, Cmp, Iter>(later, current_key);
        proof {
            let c = current_idx as int;
            let parts = before.components();
            assert(iterators@.len() == parts.len());
            assert(iterators@[c] == parts[c]);
            assert forall|j: int| 0 <= j < parts.len() && j != c implies sought_before(
                &parts[j],
                &#[trigger] iterators@[j],
                head(&parts[c]),
            ) by {
                if j < c {
                    assert(iterators@[j] == earlier@[j]);
                } else {
                    assert(iterators@[j] == later@[j - c - 1]);
                }
            }
        }
        self.put(iterators);
        self.direction = Direction::Backwards;
        self.current_iter = Some(current_idx);
    }
}

impl<'lend, Key, Cmp, Iter> LendItem<'lend> for MergingIter<Key, Cmp, Iter> where
    Key: ?Sized,
    Cmp: Comparator<Key>,
    Iter: SeekableLendingIterator<Key, Cmp> + ItemToKey<Key>,
 {
    type Item = <Iter as LendItem<'lend>>::Item;
}

impl<Key, Cmp, Iter> CursorLendingIterator for MergingIter<Key, Cmp, Iter> where
    Key: ?Sized,
    Cmp: Comparator<Key>,
    Iter: SeekableLendingIterator<Key, Cmp> + ItemToKey<Key>,
 {
    open spec fn peek(&self) -> Option<LentItem<'_, Self>> {
        match self.current_index() {
            Some(c) => self.components()[c].peek(),
            None => None,
        }
    }

    /// The entries of all components, in the order of their keys.
    open spec fn entries(&self) -> Seq<LentItem<'_, Self>> {
        self.sorted_entries()
    }

    /// The number of entries with keys that sort strictly before the key that the merge
    /// stands on; the number of all entries, where it stands on none.
    open spec fn index(&self) -> int {
        self.rank()
    }

    /// A merge is a plain cursor where it is lawful and aligned, and no two entries of its
    /// components have keys that compare as equal. Where a key stands in several components,
    /// a change of direction can pass over entries with that key.
    open spec fn plain(&self) -> bool {
        self.exact()
    }

    /// Two merges are over one collection if their components have the same entries, and
    /// they have the same comparator.
    open spec fn same_source(&self, other: &Self) -> bool {
        rows_of(self.components()) == rows_of(other.components()) && self.order()
            == other.order()
    }

    proof fn plain_peek(&self) {
        self.stands();
        merged_peek(self.order(), self.components(), self.current_index());
    }

    #[inline]
    fn valid(&self) -> (valid: bool)
        ensures
            valid == self.current_index() is Some,
    {
        proof {
            use_type_invariant(self);
        }
        self.current_iter.is_some()
    }

    fn next(&mut self) -> (item: Option<LentItem<'_, Self>>)
        ensures
            final(self).is_next_of(old(self)),
            old(self).lawful() && old(self).aligned() ==> final(self).settled_from(old(self)),
            old(self).lawful() && old(self).aligned() ==> steps_up(
                old(self).order(),
                old(self).components(),
                old(self).current_index(),
                final(self).components(),
                final(self).current_index(),
            ),
    {
        let ghost before = *self;
        proof {
            use_type_invariant(&*self);
        }
        if let Some(current_idx) = self.current_iter {
            if matches!(self.direction, Direction::Backwards) {
                self.switch_to_forwards(current_idx);
            }
            let ghost turned = *self;
            // Before this call, `current_iter` is the (non-strictly) smallest iter.
            // Move it forwards...
            let mut iterators = self.lift();
            iterators[current_idx].next();
            self.put(iterators);
            // And find the new smallest iter.
            self.find_smallest_iter();
            self.direction = Direction::Forwards;
            proof {
                assert(turned.is_turn_of(&before, true));
                assert(self.others_kept(&turned, current_idx as int));
            }
        } else {
            // In this branch, we're `!valid()`. This means that _every_ iterator is currently
            // `!valid()`.
            // Move every iterator forwards one, and find the smallest.
            let mut iterators = self.lift();
            next_each(iterators.as_mut_slice());
            self.put(iterators);

            self.find_smallest_iter();
            self.direction = Direction::Forwards;
        }
        proof {
            if before.lawful() && before.aligned() {
                self.next_skips_no_key(&before);
            }
            if before.exact() {
                self.next_is_a_step(&before);
            }
        }

        self.current()
    }

    #[inline]
    fn current(&self) -> (item: Option<LentItem<'_, Self>>) {
        match self.get_current_iter_ref() {
            Some(iter) => iter.current(),
            None => None,
        }
    }

    /// Move the iterator one position back, and return the entry at that position.
    /// Returns `None` if the iterator was at the first entry.
    ///
    /// The inner `Iter` iterators may have worse performance for backwards iteration than forwards
    /// iteration, so prefer to not use `prev`. Additionally, [`MergingIter`] has overhead
    /// for switching between backwards and forwards iteration.
    fn prev(&mut self) -> (item: Option<LentItem<'_, Self>>)
        ensures
            final(self).is_prev_of(old(self)),
            old(self).lawful() && old(self).aligned() ==> final(self).settled_from(old(self)),
            old(self).lawful() && old(self).aligned() ==> steps_down(
                old(self).order(),
                old(self).components(),
                old(self).current_index(),
                final(self).components(),
                final(self).current_index(),
            ),
    {
        let ghost before = *self;
        proof {
            use_type_invariant(&*self);
        }
        if let Some(current_idx) = self.current_iter {
            if matches!(self.direction, Direction::Forwards) {
                self.switch_to_backwards(current_idx);
            }
            let ghost turned = *self;
            // Before this call, `current_iter` is the largest iter. Move it backwards...
            let mut iterators = self.lift();
            iterators[current_idx].prev();
            self.put(iterators);
            // And find the new largest iter.
            self.find_largest_iter();
            self.direction = Direction::Backwards;
            proof {
                assert(turned.is_turn_of(&before, false));
                assert(self.others_kept(&turned, current_idx as int));
            }
        } else {
            // In this branch, we're `!valid()`. This means that _every_ iterator is currently
            // `!valid()`.
            // Move every iterator backwards one, and find the largest.
            let mut iterators = self.lift();
            prev_each(iterators.as_mut_slice());
            self.put(iterators);

            self.find_largest_iter();
            self.direction = Direction::Backwards;
        }
        proof {
            if before.lawful() && before.aligned() {
                self.prev_skips_no_key(&before);
            }
            if before.exact() {
                self.prev_is_a_step(&before);
            }
        }

        self.current()
    }
}

impl<Key, Cmp, Iter> Seekable<Key, Cmp> for MergingIter<Key, Cmp, Iter> where
    Key: ?Sized,
    Cmp: Comparator<Key>,
    Iter: SeekableLendingIterator<Key, Cmp> + ItemToKey<Key>,
 {
    /// The keys of the entries of all components, in order.
    open spec fn keys(&self) -> Seq<&Key> {
        self.sorted_keys_of_all()
    }

    open spec fn place(&self) -> int {
        self.rank()
    }

    open spec fn comparator(&self) -> &Cmp {
        self.order()
    }

    /// A merge is sorted where it is a plain cursor.
    open spec fn sorted(&self) -> bool {
        self.exact()
    }

    /// Two merges are over one collection if their components have the same entries.
    open spec fn same_collection(&self, other: &Self) -> bool {
        rows_of(self.components()) == rows_of(other.components())
    }

    proof fn sorted_keys(&self) {
        self.stands();
        merged_peek(self.order(), self.components(), self.current_index());
        merged_in_order(self.order(), self.components());
    }

    fn reset(&mut self)
        ensures
            final(self).is_reset_of(old(self)),
            old(self).lawful() ==> final(self).settled_from(old(self)),
    {
        let ghost before = *self;
        let mut iterators = self.lift();
        reset_each::<Key, Cmp, Iter>(iterators.as_mut_slice());
        self.put(iterators);
        self.direction = Direction::Forwards;
        proof {
            if before.lawful() {
                self.reset_settles(&before);
            }
            if before.exact() {
                self.stays_exact(&before);
            }
        }
    }

    fn seek(&mut self, min_bound: &Key)
        ensures
            final(self).is_seek_of(old(self), min_bound),
            old(self).lawful() ==> final(self).settled_from(old(self)),
            old(self).lawful() ==> least_from(
                final(self).order(),
                final(self).components(),
                min_bound,
                final(self).current_index(),
            ),
    {
        let ghost before = *self;
        let mut iterators = self.lift();
        seek_each::<Key, Cmp, Iter>(iterators.as_mut_slice(), min_bound);
        self.put(iterators);

        self.find_smallest_iter();
        self.direction = Direction::Forwards;
        proof {
            if before.lawful() {
                self.seek_finds_least(&before, min_bound);
            }
            if before.exact() {
                self.stays_exact(&before);
                merged_seek(self.order(), self.components(), min_bound, self.current_index());
            }
        }
    }

    /// Move the iterator to the greatest key which is strictly less than the provided
    /// `strict_upper_bound`.
    ///
    /// If there is no such key, the iterator becomes `!valid()`.
    fn seek_before(&mut self, strict_upper_bound: &Key)
        ensures
            final(self).is_seek_before_of(old(self), strict_upper_bound),
            old(self).lawful() ==> final(self).settled_from(old(self)),
            old(self).lawful() ==> greatest_before(
                final(self).order(),
                final(self).components(),
                strict_upper_bound,
                final(self).current_index(),
            ),
    {
        let ghost before = *self;
        let mut iterators = self.lift();
        seek_before_each::<Key, Cmp, Iter>(iterators.as_mut_slice(), strict_upper_bound);
        self.put(iterators);

        self.find_largest_iter();
        self.direction = Direction::Backwards;
        proof {
            if before.lawful() {
                self.seek_before_finds_greatest(&before, strict_upper_bound);
            }
            if before.exact() {
                self.stays_exact(&before);
                merged_seek_before(
                    self.order(),
                    self.components(),
                    strict_upper_bound,
                    self.current_index(),
                );
            }
        }
    }

    fn seek_to_first(&mut self)
        ensures
            final(self).is_seek_to_first_of(old(self)),
            old(self).lawful() ==> final(self).settled_from(old(self)),
            old(self).lawful() ==> steps_up(
                old(self).order(),
                old(self).components(),
                None,
                final(self).components(),
                final(self).current_index(),
            ),
    {
        let ghost before = *self;
        let mut iterators = self.lift();
        seek_to_first_each::<Key, Cmp, Iter>(iterators.as_mut_slice());
        self.put(iterators);

        self.find_smallest_iter();
        self.direction = Direction::Forwards;
        proof {
            if before.lawful() {
                self.seek_to_first_finds_smallest(&before);
            }
            if before.exact() {
                self.stays_exact(&before);
                merged_up(
                    self.order(),
                    before.components(),
                    None,
                    self.components(),
                    self.current_index(),
                );
            }
        }
    }

    /// Move the iterator to the greatest key in the collection.
    ///
    /// If the collection is empty, the iterator is `!valid()`.
    fn seek_to_last(&mut self)
        ensures
            final(self).is_seek_to_last_of(old(self)),
            old(self).lawful() ==> final(self).settled_from(old(self)),
            old(self).lawful() ==> steps_down(
                old(self).order(),
                old(self).components(),
                None,
                final(self).components(),
                final(self).current_index(),
            ),
    {
        let ghost before = *self;
        let mut iterators = self.lift();
        seek_to_last_each::<Key, Cmp, Iter>(iterators.as_mut_slice());
        self.put(iterators);

        self.find_largest_iter();
        self.direction = Direction::Backwards;
        proof {
            if before.lawful() {
                self.seek_to_last_finds_largest(&before);
            }
            if before.exact() {
                self.stays_exact(&before);
                merged_down(
                    self.order(),
                    before.components(),
                    None,
                    self.components(),
                    self.current_index(),
                );
            }
        }
    }
}

} // verus!
