use vstd::prelude::*;

use crate::comparator::{equiv, total_order, total_order_chain, Comparator};
use crate::cursor::{
    index_after_next, index_after_prev, moved_next, moved_prev, CursorLendingIterator,
};
use crate::merging_iter::MergingIter;
use crate::merging_laws::{
    backward_step, forward_step, from_the_back, from_the_front, kept_in_keys, next_in_keys,
    plain_parts, prev_in_keys, seek_before_settles, seek_settles, turn_backwards, turn_forwards,
};
use crate::merging_rank::{merged_down, merged_in_order, merged_peek, merged_up, stands_in_all};
use crate::merging_spec::{
    all_entries, greatest_before, head, item_order, largest_at, least_from, rows_of, settled,
    smallest_at, steps_down, steps_up,
};
use crate::ranking::{arrange_keeps, flat_is_the_whole};
use crate::seekable::{in_order, ItemToKey, Seekable};
use crate::seekable_iterators::SeekableLendingIterator;
use crate::tally::whole_bag;

verus! {

impl<Key, Cmp, Iter> MergingIter<Key, Cmp, Iter> where
    Key: ?Sized,
    Cmp: Comparator<Key>,
    Iter: SeekableLendingIterator<Key, Cmp> + ItemToKey<Key>,
 {
    /// A lawful and aligned merge that stands on a component stands on one that stands on an
    /// entry.
    pub proof fn stands(&self)
        requires
            self.lawful(),
            self.aligned(),
        ensures
            match self.current_index() {
                Some(c) => 0 <= c < self.components().len() && self.components()[c].peek()
                    is Some,
                None => true,
            },
    {
    }

    /// `next` on a merge that is a plain cursor is a step of one among its entries, and
    /// leaves it a plain cursor over the same entries.
    pub proof fn next_is_a_step(&self, before: &Self)
        requires
            before.exact(),
            self.is_next_of(before),
        ensures
            self.exact(),
            self.same_entries(before),
            self.rank() == index_after_next(before.rank(), before.sorted_entries().len() as int),
    {
        let order = self.order();
        let old_parts = before.components();
        let parts = self.components();
        self.next_skips_no_key(before);
        before.stands();
        self.stands();
        match (before.current_index(), self.current_index()) {
            (Some(c), Some(d)) => {
                if c == d {
                    let turned = choose|turned: Self|
                        {
                            &&& #[trigger] turned.is_turn_of(before, true)
                            &&& self.others_kept(&turned, c)
                            &&& moved_next(&turned.components()[c], &self.components()[c])
                        };
                    stands_in_all(order, old_parts, c);
                }
            },
            _ => {},
        }
        merged_up(order, old_parts, before.current_index(), parts, self.current_index());
        merged_peek(order, old_parts, before.current_index());
        assert(rows_of(parts) =~= rows_of(old_parts));
        assert(self.sorted_keys_of_all() =~= before.sorted_keys_of_all());
    }

    /// `prev` on a merge that is a plain cursor is a step of one back among its entries, and
    /// leaves it a plain cursor over the same entries.
    pub proof fn prev_is_a_step(&self, before: &Self)
        requires
            before.exact(),
            self.is_prev_of(before),
        ensures
            self.exact(),
            self.same_entries(before),
            self.rank() == index_after_prev(before.rank(), before.sorted_entries().len() as int),
    {
        let order = self.order();
        let old_parts = before.components();
        let parts = self.components();
        self.prev_skips_no_key(before);
        before.stands();
        self.stands();
        match (before.current_index(), self.current_index()) {
            (Some(c), Some(d)) => {
                if c == d {
                    let turned = choose|turned: Self|
                        {
                            &&& #[trigger] turned.is_turn_of(before, false)
                            &&& self.others_kept(&turned, c)
                            &&& moved_prev(&turned.components()[c], &self.components()[c])
                        };
                    stands_in_all(order, old_parts, c);
                    stands_in_all(order, parts, d);
                }
            },
            _ => {},
        }
        merged_down(order, old_parts, before.current_index(), parts, self.current_index());
        merged_peek(order, old_parts, before.current_index());
        assert(rows_of(parts) =~= rows_of(old_parts));
        assert(self.sorted_keys_of_all() =~= before.sorted_keys_of_all());
    }

    /// A seek on a merge that is a plain cursor leaves it a plain cursor over the same
    /// entries.
    pub proof fn stays_exact(&self, before: &Self)
        requires
            before.exact(),
            self.settled_from(before),
        ensures
            self.exact(),
            self.same_entries(before),
            self.sorted_entries().len() == all_entries(self.components()).len(),
            self.sorted_keys_of_all().len() == all_entries(self.components()).len(),
            match self.current_index() {
                Some(c) => 0 <= c < self.components().len() && self.components()[c].peek()
                    is Some,
                None => true,
            },
    {
        self.stands();
        assert(rows_of(self.components()) =~= rows_of(before.components()));
        merged_peek(self.order(), self.components(), self.current_index());
        assert(self.sorted_keys_of_all() =~= before.sorted_keys_of_all());
    }

    /// The entries of a merge that is a plain cursor are the entries of its components: as a
    /// bag they are all of these, and their keys are in order.
    pub proof fn entries_are_the_sorted_union(&self)
        requires
            self.exact(),
        ensures
            self.sorted_entries().to_multiset() == whole_bag(rows_of(self.components())),
            self.sorted_entries().len() == self.sorted_keys_of_all().len(),
            in_order(self.order(), self.sorted_keys_of_all()),
    {
        arrange_keeps(
            all_entries(self.components()),
            item_order::<Key, Cmp, Iter>(self.order()),
        );
        flat_is_the_whole(rows_of(self.components()));
        merged_in_order(self.order(), self.components());
    }

    /// A new merge of lawful components that are at their phantom positions is aligned.
    pub proof fn new_is_aligned(&self)
        requires
            self.lawful(),
            self.current_index() is None,
            forall|j: int|
                0 <= j < self.components().len() ==> (#[trigger] self.components()[j]).peek()
                    is None,
        ensures
            self.aligned(),
    {
        plain_parts(self.order(), self.components());
        assert forall|j: int| 0 <= j < self.components().len() implies (
        #[trigger] self.components()[j]).place() == self.components()[j].keys().len() by {
            assert(settled(self.order(), &self.components()[j]));
        }
    }

    /// `reset` leaves a lawful merge lawful and aligned, on no entry.
    pub proof fn reset_settles(&self, before: &Self)
        requires
            before.lawful(),
            self.is_reset_of(before),
        ensures
            self.settled_from(before),
    {
        let order = self.order();
        assert forall|j: int| 0 <= j < self.components().len() implies settled(
            order,
            &#[trigger] self.components()[j],
        ) && self.components()[j].keys() == before.components()[j].keys()
            && self.components()[j].entries() == before.components()[j].entries()
            && self.components()[j].place() == self.components()[j].keys().len() by {
            kept_in_keys(order, &before.components()[j], &self.components()[j]);
        }
    }

    /// `seek` leaves a lawful merge lawful and aligned, on the smallest key of all its
    /// components that is `bound` or greater; on no entry, if every key sorts strictly before
    /// `bound`.
    pub proof fn seek_finds_least(&self, before: &Self, bound: &Key)
        requires
            before.lawful(),
            self.is_seek_of(before, bound),
        ensures
            self.settled_from(before),
            least_from(self.order(), self.components(), bound, self.current_index()),
    {
        seek_settles(
            self.order(),
            before.components(),
            self.components(),
            bound,
            self.current_index(),
        );
    }

    /// `seek_before` leaves a lawful merge lawful and aligned, on the greatest key of all its
    /// components that sorts strictly before `bound`; on no entry, if there is no such key.
    pub proof fn seek_before_finds_greatest(&self, before: &Self, bound: &Key)
        requires
            before.lawful(),
            self.is_seek_before_of(before, bound),
        ensures
            self.settled_from(before),
            greatest_before(self.order(), self.components(), bound, self.current_index()),
    {
        seek_before_settles(
            self.order(),
            before.components(),
            self.components(),
            bound,
            self.current_index(),
        );
    }

    /// `seek_to_first` leaves a lawful merge lawful and aligned, on the smallest key of all
    /// its components; on no entry, if there are no keys.
    pub proof fn seek_to_first_finds_smallest(&self, before: &Self)
        requires
            before.lawful(),
            self.is_seek_to_first_of(before),
        ensures
            self.settled_from(before),
            steps_up(
                self.order(),
                before.components(),
                None,
                self.components(),
                self.current_index(),
            ),
    {
        let order = self.order();
        assert forall|j: int| 0 <= j < self.components().len() implies settled(
            order,
            &#[trigger] self.components()[j],
        ) && self.components()[j].keys() == before.components()[j].keys()
            && self.components()[j].entries() == before.components()[j].entries()
            && self.components()[j].place() == 0 by {
            kept_in_keys(order, &before.components()[j], &self.components()[j]);
        }
        from_the_front(order, self.components(), self.current_index());
    }

    /// `seek_to_last` leaves a lawful merge lawful and aligned, on the largest key of all its
    /// components; on no entry, if there are no keys.
    pub proof fn seek_to_last_finds_largest(&self, before: &Self)
        requires
            before.lawful(),
            self.is_seek_to_last_of(before),
        ensures
            self.settled_from(before),
            steps_down(
                self.order(),
                before.components(),
                None,
                self.components(),
                self.current_index(),
            ),
    {
        let order = self.order();
        assert forall|j: int| 0 <= j < self.components().len() implies settled(
            order,
            &#[trigger] self.components()[j],
        ) && self.components()[j].keys() == before.components()[j].keys()
            && self.components()[j].entries() == before.components()[j].entries()
            && self.components()[j].place() == if self.components()[j].keys().len() == 0 {
            0
        } else {
            self.components()[j].keys().len() - 1
        } by {
            kept_in_keys(order, &before.components()[j], &self.components()[j]);
        }
        from_the_back(order, self.components(), self.current_index());
    }

    /// `next` passes over no key: it leaves a lawful and aligned merge lawful and aligned, on
    /// a key that is not smaller than the key it stood on, with no key of a component
    /// strictly between the two, whatever the direction was. From no entry it leads to the
    /// smallest key of all, and where it leads to no entry, no key is greater than the key
    /// it stood on.
    pub proof fn next_skips_no_key(&self, before: &Self)
        requires
            before.lawful(),
            before.aligned(),
            self.is_next_of(before),
        ensures
            self.settled_from(before),
            steps_up(
                self.order(),
                before.components(),
                before.current_index(),
                self.components(),
                self.current_index(),
            ),
    {
        let order = self.order();
        let old_parts = before.components();
        let parts = self.components();
        plain_parts(order, old_parts);
        match before.current_index() {
            None => {
                assert forall|j: int| 0 <= j < parts.len() implies (#[trigger] parts[j]).plain()
                    && parts[j].keys() == old_parts[j].keys() && parts[j].entries()
                    == old_parts[j].entries() && parts[j].place() == 0 by {
                    assert(settled(order, &old_parts[j]));
                    next_in_keys(order, &old_parts[j], &parts[j]);
                }
                from_the_front(order, parts, self.current_index());
            },
            Some(c) => {
                let turned = choose|turned: Self|
                    {
                        &&& #[trigger] turned.is_turn_of(before, true)
                        &&& self.others_kept(&turned, c)
                        &&& moved_next(&turned.components()[c], &self.components()[c])
                    };
                let mid_parts = turned.components();
                assert(settled(order, &old_parts[c]));
                if before.forwards() {
                    assert(mid_parts =~= old_parts);
                } else {
                    turn_forwards(order, old_parts, mid_parts, c);
                }
                forward_step(order, mid_parts, parts, c, self.current_index());
            },
        }
    }

    /// `prev` passes over no key: it leaves a lawful and aligned merge lawful and aligned, on
    /// a key that is not greater than the key it stood on, with no key of a component
    /// strictly between the two, whatever the direction was. From no entry it leads to the
    /// largest key of all, and where it leads to no entry, no key is smaller than the key
    /// it stood on.
    pub proof fn prev_skips_no_key(&self, before: &Self)
        requires
            before.lawful(),
            before.aligned(),
            self.is_prev_of(before),
        ensures
            self.settled_from(before),
            steps_down(
                self.order(),
                before.components(),
                before.current_index(),
                self.components(),
                self.current_index(),
            ),
    {
        let order = self.order();
        let old_parts = before.components();
        let parts = self.components();
        plain_parts(order, old_parts);
        match before.current_index() {
            None => {
                assert forall|j: int| 0 <= j < parts.len() implies (#[trigger] parts[j]).plain()
                    && parts[j].keys() == old_parts[j].keys() && parts[j].entries()
                    == old_parts[j].entries() && parts[j].place() == if parts[j].keys().len()
                    == 0 {
                    0
                } else {
                    parts[j].keys().len() - 1
                } by {
                    assert(settled(order, &old_parts[j]));
                    prev_in_keys(order, &old_parts[j], &parts[j]);
                }
                from_the_back(order, parts, self.current_index());
            },
            Some(c) => {
                let turned = choose|turned: Self|
                    {
                        &&& #[trigger] turned.is_turn_of(before, false)
                        &&& self.others_kept(&turned, c)
                        &&& moved_prev(&turned.components()[c], &self.components()[c])
                    };
                let mid_parts = turned.components();
                assert(settled(order, &old_parts[c]));
                if !before.forwards() {
                    assert(mid_parts =~= old_parts);
                } else {
                    turn_backwards(order, old_parts, mid_parts, c);
                }
                backward_step(order, mid_parts, parts, c, self.current_index());
            },
        }
    }

    /// Where two components stand on keys that compare as equal, a choice of the smallest
    /// does not take the later of the two, and a choice of the largest not the earlier.
    pub proof fn ties_go_by_index(order: &Cmp, parts: Seq<Iter>, first: int, second: int, at: int)
        requires
            total_order(order),
            0 <= first < second < parts.len(),
            parts[first].peek() is Some,
            parts[second].peek() is Some,
            equiv(order, head(&parts[first]), head(&parts[second])),
        ensures
            smallest_at(order, parts, Some(at)) ==> at != second,
            largest_at(order, parts, Some(at)) ==> at != first,
    {
        total_order_chain(order, head(&parts[first]), head(&parts[second]), head(&parts[second]));
        total_order_chain(order, head(&parts[second]), head(&parts[first]), head(&parts[first]));
    }
}

} // verus!
